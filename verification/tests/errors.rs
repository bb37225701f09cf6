use glm4_moe_lite::attention::leading_dims;
use glm4_moe_lite::error::{ModelError, Module};

#[test]
fn messages() {
    let cases = [
        (
            ModelError::NumHiddenLayersNotPositive,
            "num_hidden_layers must be positive",
        ),
        (ModelError::VocabSizeNotPositive, "vocab_size must be positive"),
        (
            ModelError::NumAttentionHeadsNotPositive,
            "num_attention_heads must be positive",
        ),
        (ModelError::QHeadDimOutOfRange, "q_head_dim out of i16 range"),
        (
            ModelError::RoutedExpertsRequired,
            "n_routed_experts required for MoE layer",
        ),
        (ModelError::TooFewDims, "Input must have >= 2 dims"),
        (ModelError::Missing(Module::QAProj), "q_a_proj missing"),
        (ModelError::Missing(Module::QALayernorm), "q_a_layernorm missing"),
        (ModelError::Missing(Module::QBProj), "q_b_proj missing"),
        (ModelError::Missing(Module::QProj), "q_proj missing"),
        (ModelError::Missing(Module::RouterGate), "MoE router gate missing"),
        (ModelError::Missing(Module::SwitchMlp), "MoE switch_mlp missing"),
        (ModelError::Missing(Module::DenseGateProj), "dense gate_proj missing"),
        (ModelError::Missing(Module::DenseDownProj), "dense down_proj missing"),
        (ModelError::Missing(Module::DenseUpProj), "dense up_proj missing"),
        (
            ModelError::CacheLengthMismatch { cache: 3, layers: 2 },
            "kv_cache length (3) must match num layers (2)",
        ),
        (
            ModelError::CacheLengthMismatch {
                cache: 0,
                layers: usize::MAX,
            },
            "kv_cache length (0) must match num layers (18446744073709551615)",
        ),
        (
            ModelError::CacheLengthMismatch {
                cache: 1047,
                layers: 9_876_543_210,
            },
            "kv_cache length (1047) must match num layers (9876543210)",
        ),
    ];
    for (error, text) in cases {
        assert_eq!(error.message(), text);
    }
}

#[test]
fn leading_dims_of_shapes() {
    assert_eq!(leading_dims(&[2, 5, 64]), Ok((2, 5)));
    assert_eq!(leading_dims(&[7, 3]), Ok((7, 3)));
    assert_eq!(leading_dims(&[7]), Err(ModelError::TooFewDims));
    assert_eq!(leading_dims(&[]), Err(ModelError::TooFewDims));
}
