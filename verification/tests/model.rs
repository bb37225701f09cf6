use glm4_moe_lite::attention::Glm4MoeLiteAttention;
use glm4_moe_lite::binary32::Binary32;
use glm4_moe_lite::cache::{all_have_room, move_on, SteppingKeyValueCache};
use glm4_moe_lite::config::{Glm4MoeLiteModelArgs, QuantizationConfig};
use glm4_moe_lite::decoder::Glm4MoeLiteDecoderLayer;
use glm4_moe_lite::error::{ModelError, Module};
use glm4_moe_lite::mlp::{Glm4MoeLiteMlpBlock, SharedExperts};
use glm4_moe_lite::model::{prepare_caches, Glm4MoeLiteCausalLM, Glm4MoeLiteInner};
use glm4_moe_lite::tape::{LayerPart, Op, Site, Span, Tape};
use glm4_moe_lite::weights::{Linear, QEmbedding, QLinear, RmsNorm, SwitchMlpWeights};

fn single(x: f32) -> Binary32 {
    Binary32 { bits: x.to_bits() }
}

fn small_args() -> Glm4MoeLiteModelArgs {
    Glm4MoeLiteModelArgs {
        model_type: "glm4_moe_lite".to_owned(),
        hidden_size: 64,
        num_hidden_layers: 2,
        intermediate_size: 32,
        num_attention_heads: 4,
        num_key_value_heads: 4,
        rms_norm_eps: single(1e-6),
        vocab_size: 128,
        max_position_embeddings: 256,
        rope_theta: single(1_000_000.0),
        tie_word_embeddings: true,
        kv_lora_rank: 32,
        q_lora_rank: Some(16),
        qk_rope_head_dim: 8,
        v_head_dim: 16,
        qk_nope_head_dim: 16,
        n_routed_experts: Some(4),
        n_shared_experts: Some(1),
        num_experts_per_tok: Some(2),
        moe_intermediate_size: Some(32),
        routed_scaling_factor: Some(single(1.8)),
        first_k_dense_replace: 1,
        norm_topk_prob: true,
        num_nextn_predict_layers: 1,
        quantization: None,
    }
}

fn ops(tape: &Tape) -> Vec<Op> {
    tape.instrs.iter().map(|i| i.op).collect()
}

fn args_of(tape: &Tape) -> Vec<Vec<usize>> {
    tape.instrs.iter().map(|i| i.args.clone()).collect()
}

fn updated(tape: &Tape) -> Vec<usize> {
    tape.instrs
        .iter()
        .filter_map(|i| match i.op {
            Op::CacheUpdate { layer, .. } => Some(layer),
            _ => None,
        })
        .collect()
}

fn at(layer: usize, part: LayerPart) -> Site {
    Site::Layer(layer, part)
}

#[test]
fn test_model_new_small_config() {
    let args = small_args();
    let model = Glm4MoeLiteCausalLM::new(args).unwrap();
    assert_eq!(model.args.num_hidden_layers, 2);
    assert!(model.lm_head.is_none(), "tied embeddings => no lm_head");
}

#[test]
fn test_model_new_untied_embeddings() {
    let mut args = small_args();
    args.tie_word_embeddings = false;
    let model = Glm4MoeLiteCausalLM::new(args).unwrap();
    assert!(model.lm_head.is_some());
}

#[test]
fn test_model_new_zero_layers() {
    let mut args = small_args();
    args.num_hidden_layers = 0;
    assert!(Glm4MoeLiteCausalLM::new(args).is_err());
}

#[test]
fn test_model_new_zero_vocab() {
    let mut args = small_args();
    args.vocab_size = 0;
    assert!(Glm4MoeLiteCausalLM::new(args).is_err());
}

#[test]
fn test_model_new_zero_attention_heads() {
    let mut args = small_args();
    args.num_attention_heads = 0;
    assert!(Glm4MoeLiteCausalLM::new(args).is_err());
}

#[test]
fn test_forward_preserves_pre_initialized_cache() {
    let args = small_args();
    let model = Glm4MoeLiteCausalLM::new(args).unwrap();
    let mut cache: Vec<Option<SteppingKeyValueCache>> =
        (0..2).map(|_| Some(SteppingKeyValueCache::new())).collect();

    let mut tape = Tape::new();
    let _ = model.forward(&mut tape, 3, false, &mut cache);
    assert_eq!(cache.len(), 2);
    for (i, c) in cache.iter().enumerate() {
        assert!(c.is_some(), "layer {i} cache should be Some");
    }
}

#[test]
fn test_forward_cache_length_mismatch() {
    let args = small_args();
    let model = Glm4MoeLiteCausalLM::new(args).unwrap();
    let mut cache = vec![
        Some(SteppingKeyValueCache::new()),
        Some(SteppingKeyValueCache::new()),
        Some(SteppingKeyValueCache::new()),
    ];

    let mut tape = Tape::new();
    let result = model.forward(&mut tape, 1, false, &mut cache);
    assert!(result.is_err(), "mismatched cache length should error");
}

#[test]
fn settings_are_refused_in_order() {
    let mut args = small_args();
    args.num_hidden_layers = -1;
    args.vocab_size = 0;
    args.num_attention_heads = -4;
    args.qk_nope_head_dim = 40_000;
    assert_eq!(
        Glm4MoeLiteCausalLM::new(args.clone()).unwrap_err(),
        ModelError::NumHiddenLayersNotPositive
    );
    args.num_hidden_layers = 1;
    assert_eq!(
        Glm4MoeLiteCausalLM::new(args.clone()).unwrap_err(),
        ModelError::VocabSizeNotPositive
    );
    args.vocab_size = 1;
    assert_eq!(
        Glm4MoeLiteCausalLM::new(args.clone()).unwrap_err(),
        ModelError::NumAttentionHeadsNotPositive
    );
    args.num_attention_heads = 1;
    assert_eq!(
        Glm4MoeLiteCausalLM::new(args.clone()).unwrap_err(),
        ModelError::QHeadDimOutOfRange
    );
    args.qk_nope_head_dim = 32_767 - 8;
    let model = Glm4MoeLiteCausalLM::new(args).unwrap();
    assert_eq!(model.model.layers[0].self_attn.head_dim, 32_767);
}

#[test]
fn head_width_range_ends_at_both_sides() {
    let mut args = small_args();
    args.qk_rope_head_dim = 0;
    for (width, ok) in [
        (32_767, true),
        (32_768, false),
        (-32_768, true),
        (-32_769, false),
    ] {
        args.qk_nope_head_dim = width;
        assert_eq!(Glm4MoeLiteAttention::new(&args, 64, 4).is_ok(), ok);
    }
}

#[test]
fn quantization_defaults_to_groups_of_64_and_4_bits() {
    let model = Glm4MoeLiteCausalLM::new(small_args()).unwrap();
    let linear = QLinear {
        group_size: 64,
        bits: 4,
    };
    assert_eq!(model.model.layers[0].self_attn.o_proj, linear);
    assert_eq!(
        model.model.embed_tokens,
        QEmbedding {
            group_size: 64,
            bits: 4
        }
    );

    let mut args = small_args();
    args.tie_word_embeddings = false;
    args.quantization = Some(QuantizationConfig {
        group_size: 32,
        bits: 8,
    });
    let other = Glm4MoeLiteCausalLM::new(args).unwrap();
    let linear = QLinear {
        group_size: 32,
        bits: 8,
    };
    assert_eq!(other.lm_head, Some(linear));
    assert_eq!(other.model.layers[1].self_attn.kv_b_proj, linear);
    assert_eq!(
        other.model.layers[1].mlp.switch_mlp,
        Some(SwitchMlpWeights {
            group_size: 32,
            bits: 8
        })
    );
    assert_eq!(other.model.layers[0].mlp.gate_proj, Some(linear));
}

#[test]
fn attention_layout_with_and_without_compressed_query() {
    let args = small_args();
    let linear = QLinear {
        group_size: 64,
        bits: 4,
    };
    let compressed = Glm4MoeLiteAttention::new(&args, 64, 4).unwrap();
    assert!(compressed.use_compressed_query);
    assert_eq!(compressed.q_a_proj, Some(linear));
    assert_eq!(
        compressed.q_a_layernorm,
        Some(RmsNorm {
            dims: 16,
            eps: single(1e-6)
        })
    );
    assert_eq!(compressed.q_b_proj, Some(linear));
    assert_eq!(compressed.q_proj, None);
    assert_eq!(
        compressed.kv_a_layernorm,
        RmsNorm {
            dims: 32,
            eps: single(1e-6)
        }
    );
    assert_eq!(compressed.head_dim, 24);
    assert_eq!(compressed.num_heads, 4);
    assert_eq!(compressed.v_head_dim, 16);
    assert_eq!(compressed.rope_base, single(1_000_000.0));

    let mut plain_args = small_args();
    plain_args.q_lora_rank = None;
    let plain = Glm4MoeLiteAttention::new(&plain_args, 64, 4).unwrap();
    assert!(!plain.use_compressed_query);
    assert_eq!(plain.q_a_proj, None);
    assert_eq!(plain.q_a_layernorm, None);
    assert_eq!(plain.q_b_proj, None);
    assert_eq!(plain.q_proj, Some(linear));
}

#[test]
fn routed_layout() {
    let mut args = small_args();
    let block = Glm4MoeLiteMlpBlock::new_moe(&args, 64, 4).unwrap();
    assert!(block.is_moe);
    assert_eq!(
        block.gate,
        Some(Linear {
            input_dims: 64,
            output_dims: 4,
            bias: false
        })
    );
    assert_eq!(block.shared_experts, Some(SharedExperts::new(64, 4)));
    assert_eq!(block.num_experts, 4);
    assert_eq!(block.top_k, 2);
    assert_eq!(block.scaling_factor, single(1.8));
    assert!(block.norm_topk_prob);
    assert_eq!(block.gate_proj, None);

    args.n_shared_experts = Some(0);
    args.num_experts_per_tok = None;
    args.routed_scaling_factor = None;
    let other = Glm4MoeLiteMlpBlock::new_moe(&args, 64, 4).unwrap();
    assert_eq!(other.shared_experts, None);
    assert_eq!(other.top_k, 2);
    assert_eq!(other.scaling_factor, single(1.0));

    args.n_shared_experts = None;
    assert_eq!(
        Glm4MoeLiteMlpBlock::new_moe(&args, 64, 4)
            .unwrap()
            .shared_experts,
        None
    );
    args.n_routed_experts = None;
    assert_eq!(
        Glm4MoeLiteMlpBlock::new_moe(&args, 64, 4).unwrap_err(),
        ModelError::RoutedExpertsRequired
    );
}

#[test]
fn shared_experts_are_quantized_alike() {
    let shared = SharedExperts::new(32, 8);
    let linear = QLinear {
        group_size: 32,
        bits: 8,
    };
    assert_eq!(shared.gate_proj, linear);
    assert_eq!(shared.up_proj, linear);
    assert_eq!(shared.down_proj, linear);
}

#[test]
fn dense_layers_come_first() {
    let mut args = small_args();
    args.num_hidden_layers = 5;
    args.first_k_dense_replace = 3;
    let model = Glm4MoeLiteCausalLM::new(args.clone()).unwrap();
    let routed: Vec<bool> = model.model.layers.iter().map(|l| l.mlp.is_moe).collect();
    assert_eq!(routed, [false, false, false, true, true]);
    assert_eq!(model.model.layers[2].self_attn, model.model.layers[4].self_attn);
    args.n_routed_experts = Some(0);
    let dense = Glm4MoeLiteCausalLM::new(args).unwrap();
    assert!(dense.model.layers.iter().all(|l| !l.mlp.is_moe));
}

#[test]
fn layer_layout() {
    let args = small_args();
    let layer = Glm4MoeLiteDecoderLayer::new(&args, 0, 64, 4).unwrap();
    assert_eq!(
        layer.input_layernorm,
        RmsNorm {
            dims: 64,
            eps: single(1e-6)
        }
    );
    assert_eq!(layer.post_attention_layernorm, layer.input_layernorm);
    assert_eq!(layer.mlp, Glm4MoeLiteMlpBlock::new_dense(64, 4));
    let inner = Glm4MoeLiteInner::new(&args, 64, 4).unwrap();
    assert_eq!(inner.layers.len(), 2);
    assert_eq!(inner.layers[0], layer);
    assert_eq!(inner.norm, layer.input_layernorm);
}

#[test]
fn no_layers_are_laid_out_for_a_count_that_is_not_positive() {
    let mut args = small_args();
    args.num_hidden_layers = -2;
    let inner = Glm4MoeLiteInner::new(&args, 64, 4).unwrap();
    assert!(inner.layers.is_empty());
}

#[test]
fn attention_with_cache_step_by_step() {
    let attention = Glm4MoeLiteAttention::new(&small_args(), 64, 4).unwrap();
    let mut tape = Tape::new();
    let x = tape.record0(Op::Inputs);
    let mask = tape.record0(Op::GivenMask);
    let mut cache = Some(SteppingKeyValueCache { offset: 9 });
    let out = attention
        .forward(&mut tape, 3, x, mask, &mut cache, 5)
        .unwrap();
    assert_eq!(cache, Some(SteppingKeyValueCache { offset: 14 }));
    let to_nope = Op::Slice {
        rank: 4,
        axis: 3,
        span: Span::To(16),
    };
    let from_nope = Op::Slice {
        rank: 4,
        axis: 3,
        span: Span::From(16),
    };
    let rope = Op::Rope {
        width: 8,
        base: single(1_000_000.0),
        offset: 9,
    };
    let expected: Vec<(Op, Vec<usize>)> = vec![
        (Op::Inputs, vec![]),
        (Op::GivenMask, vec![]),
        (Op::LeadingDims, vec![0]),
        (Op::QLinear(at(3, LayerPart::QAProj)), vec![0]),
        (Op::RmsNorm(at(3, LayerPart::QALayernorm)), vec![3]),
        (Op::QLinear(at(3, LayerPart::QBProj)), vec![4]),
        (
            Op::SplitHeads {
                heads: 4,
                width: 24,
            },
            vec![5, 2],
        ),
        (Op::SwapHeads, vec![6]),
        (to_nope, vec![7]),
        (from_nope, vec![7]),
        (Op::QLinear(at(3, LayerPart::KvAProjWithMqa)), vec![0]),
        (
            Op::Slice {
                rank: 3,
                axis: 2,
                span: Span::To(32),
            },
            vec![10],
        ),
        (
            Op::Slice {
                rank: 3,
                axis: 2,
                span: Span::From(32),
            },
            vec![10],
        ),
        (Op::SplitHeads { heads: 1, width: 8 }, vec![12, 2]),
        (Op::SwapHeads, vec![13]),
        (Op::RmsNorm(at(3, LayerPart::KvALayernorm)), vec![11]),
        (Op::QLinear(at(3, LayerPart::KvBProj)), vec![15]),
        (
            Op::SplitHeads {
                heads: 4,
                width: -1,
            },
            vec![16, 2],
        ),
        (Op::SwapHeads, vec![17]),
        (to_nope, vec![18]),
        (from_nope, vec![18]),
        (rope, vec![9]),
        (rope, vec![14]),
        (Op::BroadcastHeads { heads: 4, width: 8 }, vec![22, 2]),
        (Op::Concat, vec![19, 23]),
        (Op::Concat, vec![8, 21]),
        (
            Op::CacheUpdate {
                layer: 3,
                offset: 9,
            },
            vec![24, 20],
        ),
        (Op::FetchedKeys, vec![26]),
        (Op::FetchedValues, vec![26]),
        (Op::Attend { head_dim: 24 }, vec![25, 27, 28, 1]),
        (Op::SwapHeads, vec![29]),
        (Op::MergeHeads, vec![30, 2]),
        (Op::QLinear(at(3, LayerPart::OProj)), vec![31]),
    ];
    assert_eq!(ops(&tape), expected.iter().map(|e| e.0).collect::<Vec<_>>());
    assert_eq!(
        args_of(&tape),
        expected.iter().map(|e| e.1.clone()).collect::<Vec<_>>()
    );
    assert_eq!(out, 32);
}

#[test]
fn attention_without_cache_starts_at_position_zero() {
    let mut args = small_args();
    args.q_lora_rank = None;
    let attention = Glm4MoeLiteAttention::new(&args, 64, 4).unwrap();
    let mut tape = Tape::new();
    let x = tape.record0(Op::Inputs);
    let mask = tape.record0(Op::GivenMask);
    let mut cache = None;
    attention
        .forward(&mut tape, 0, x, mask, &mut cache, 5)
        .unwrap();
    assert_eq!(cache, None);
    assert!(updated(&tape).is_empty());
    assert!(ops(&tape).contains(&Op::QLinear(at(0, LayerPart::QProj))));
    assert!(ops(&tape).contains(&Op::Rope {
        width: 8,
        base: single(1_000_000.0),
        offset: 0
    }));
}

#[test]
fn attention_with_missing_modules() {
    let whole = Glm4MoeLiteAttention::new(&small_args(), 64, 4).unwrap();
    let mut cache = Some(SteppingKeyValueCache { offset: 6 });
    let mut tape = Tape::new();
    let x = tape.record0(Op::Inputs);

    let mut a = whole;
    a.q_a_proj = None;
    a.q_b_proj = None;
    assert_eq!(
        a.forward(&mut tape, 0, x, x, &mut cache, 1),
        Err(ModelError::Missing(Module::QAProj))
    );
    assert_eq!(ops(&tape), [Op::Inputs, Op::LeadingDims]);
    a = whole;
    a.q_a_layernorm = None;
    assert_eq!(
        a.forward(&mut tape, 0, x, x, &mut cache, 1),
        Err(ModelError::Missing(Module::QALayernorm))
    );
    a = whole;
    a.q_b_proj = None;
    assert_eq!(
        a.forward(&mut tape, 0, x, x, &mut cache, 1),
        Err(ModelError::Missing(Module::QBProj))
    );
    a = whole;
    a.use_compressed_query = false;
    assert_eq!(
        a.forward(&mut tape, 0, x, x, &mut cache, 1),
        Err(ModelError::Missing(Module::QProj))
    );
    assert_eq!(cache, Some(SteppingKeyValueCache { offset: 6 }));
}

#[test]
fn routed_block_step_by_step() {
    let block = Glm4MoeLiteMlpBlock::new_moe(&small_args(), 64, 4).unwrap();
    let mut tape = Tape::new();
    let x = tape.record0(Op::Inputs);
    let out = block.forward(&mut tape, 1, x).unwrap();
    let expected: Vec<(Op, Vec<usize>)> = vec![
        (Op::Inputs, vec![]),
        (Op::Linear(at(1, LayerPart::RouterGate)), vec![0]),
        (Op::Softmax, vec![1]),
        (Op::ArgPartition { kth: -2 }, vec![2]),
        (
            Op::Slice {
                rank: 3,
                axis: 2,
                span: Span::From(2),
            },
            vec![3],
        ),
        (Op::TakeAlong, vec![2, 4]),
        (Op::SumLast, vec![5]),
        (Op::Divide, vec![5, 6]),
        (Op::ScalarLike { value: single(1.8) }, vec![7]),
        (Op::Multiply, vec![7, 8]),
        (Op::SwitchMlp(at(1, LayerPart::SwitchMlp)), vec![0, 4]),
        (Op::ExpandLast, vec![9]),
        (Op::Multiply, vec![10, 11]),
        (Op::SumExperts, vec![12]),
        (Op::QLinear(at(1, LayerPart::SharedGateProj)), vec![0]),
        (Op::QLinear(at(1, LayerPart::SharedUpProj)), vec![0]),
        (Op::Swiglu, vec![14, 15]),
        (Op::QLinear(at(1, LayerPart::SharedDownProj)), vec![16]),
        (Op::Add, vec![13, 17]),
    ];
    assert_eq!(ops(&tape), expected.iter().map(|e| e.0).collect::<Vec<_>>());
    assert_eq!(
        args_of(&tape),
        expected.iter().map(|e| e.1.clone()).collect::<Vec<_>>()
    );
    assert_eq!(out, 18);
}

#[test]
fn scores_are_left_alone_where_so_set() {
    let mut args = small_args();
    args.norm_topk_prob = false;
    args.routed_scaling_factor = None;
    args.n_shared_experts = None;
    let block = Glm4MoeLiteMlpBlock::new_moe(&args, 64, 4).unwrap();
    let mut tape = Tape::new();
    let x = tape.record0(Op::Inputs);
    block.forward(&mut tape, 0, x).unwrap();
    assert_eq!(
        ops(&tape)[5..],
        [
            Op::TakeAlong,
            Op::SwitchMlp(at(0, LayerPart::SwitchMlp)),
            Op::ExpandLast,
            Op::Multiply,
            Op::SumExperts,
        ]
    );
    assert_eq!(tape.instrs[7].args, [5]);
}

#[test]
fn routed_block_with_missing_modules() {
    let whole = Glm4MoeLiteMlpBlock::new_moe(&small_args(), 64, 4).unwrap();
    let mut tape = Tape::new();
    let x = tape.record0(Op::Inputs);
    let mut block = whole;
    block.gate = None;
    assert_eq!(
        block.forward(&mut tape, 0, x),
        Err(ModelError::Missing(Module::RouterGate))
    );
    assert_eq!(tape.instrs.len(), 1);
    block = whole;
    block.switch_mlp = None;
    assert_eq!(
        block.forward(&mut tape, 0, x),
        Err(ModelError::Missing(Module::SwitchMlp))
    );
    assert_eq!(tape.instrs.len(), 10);
}

#[test]
fn dense_block() {
    let block = Glm4MoeLiteMlpBlock::new_dense(64, 4);
    let mut tape = Tape::new();
    let x = tape.record0(Op::Inputs);
    let out = block.forward(&mut tape, 0, x).unwrap();
    assert_eq!(
        ops(&tape),
        [
            Op::Inputs,
            Op::QLinear(at(0, LayerPart::DenseGateProj)),
            Op::QLinear(at(0, LayerPart::DenseUpProj)),
            Op::Swiglu,
            Op::QLinear(at(0, LayerPart::DenseDownProj)),
        ]
    );
    assert_eq!(args_of(&tape), [vec![], vec![0], vec![0], vec![1, 2], vec![3]]);
    assert_eq!(out, 4);

    let mut part = block;
    part.up_proj = None;
    assert_eq!(
        part.forward(&mut tape, 0, x),
        Err(ModelError::Missing(Module::DenseUpProj))
    );
    part.down_proj = None;
    assert_eq!(
        part.forward(&mut tape, 0, x),
        Err(ModelError::Missing(Module::DenseDownProj))
    );
    part.gate_proj = None;
    assert_eq!(
        part.forward(&mut tape, 0, x),
        Err(ModelError::Missing(Module::DenseGateProj))
    );
    assert_eq!(tape.instrs.len(), 5);
}

#[test]
fn layer_adds_attention_and_block_to_what_came_in() {
    let layer = Glm4MoeLiteDecoderLayer::new(&small_args(), 0, 64, 4).unwrap();
    let mut tape = Tape::new();
    let x = tape.record0(Op::Inputs);
    let mask = tape.record0(Op::GivenMask);
    let out = layer
        .forward(&mut tape, 0, x, mask, &mut None, 1)
        .unwrap();
    let places: Vec<usize> = (0..tape.instrs.len())
        .filter(|&i| tape.instrs[i].op == Op::Add)
        .collect();
    assert_eq!(places.len(), 2);
    assert_eq!(tape.instrs[2].op, Op::RmsNorm(at(0, LayerPart::InputLayernorm)));
    assert_eq!(tape.instrs[places[0]].args, [x, places[0] - 1]);
    assert_eq!(
        tape.instrs[places[0] + 1].op,
        Op::RmsNorm(at(0, LayerPart::PostAttentionLayernorm))
    );
    assert_eq!(tape.instrs[places[1]].args, [places[0], places[1] - 1]);
    assert_eq!(out, places[1]);
}

#[test]
fn first_pass_gives_each_layer_a_cache_and_updates_it() {
    let model = Glm4MoeLiteCausalLM::new(small_args()).unwrap();
    let mut cache = Vec::new();
    let mut tape = Tape::new();
    let hidden = model
        .forward_hidden(&mut tape, 5, false, &mut cache)
        .unwrap();
    assert_eq!(cache, vec![Some(SteppingKeyValueCache { offset: 5 }); 2]);
    assert_eq!(
        ops(&tape)[..4],
        [
            Op::Inputs,
            Op::Embed,
            Op::CreateMask,
            Op::FillCaches { layers: 2 },
        ]
    );
    assert_eq!(args_of(&tape)[..4], [vec![], vec![0], vec![1], vec![]]);
    assert_eq!(updated(&tape), [0, 1]);
    assert_eq!(tape.instrs[hidden].op, Op::RmsNorm(Site::FinalNorm));
    assert_eq!(hidden, tape.instrs.len() - 1);
}

#[test]
fn later_pass_starts_where_its_caches_stand_and_moves_them_on() {
    let model = Glm4MoeLiteCausalLM::new(small_args()).unwrap();
    let mut cache = vec![Some(SteppingKeyValueCache { offset: 7 }), None];
    let mut tape = Tape::new();
    model
        .forward_hidden(&mut tape, 4, true, &mut cache)
        .unwrap();
    assert_eq!(cache, [Some(SteppingKeyValueCache { offset: 11 }), None]);
    assert_eq!(ops(&tape)[..3], [Op::Inputs, Op::Embed, Op::GivenMask]);
    assert_eq!(updated(&tape), [0]);
    let offsets: Vec<i32> = tape
        .instrs
        .iter()
        .filter_map(|i| match i.op {
            Op::Rope { offset, .. } | Op::CacheUpdate { offset, .. } => Some(offset),
            _ => None,
        })
        .collect();
    assert_eq!(offsets, [7, 7, 7, 0, 0]);
}

#[test]
fn a_created_mask_depends_on_the_given_caches() {
    let model = Glm4MoeLiteCausalLM::new(small_args()).unwrap();
    let mut cache = vec![Some(SteppingKeyValueCache { offset: 7 }), None];
    let mut tape = Tape::new();
    model
        .forward_hidden(&mut tape, 4, false, &mut cache)
        .unwrap();
    assert_eq!(
        ops(&tape)[..5],
        [
            Op::Inputs,
            Op::Embed,
            Op::GivenCache {
                layer: 0,
                cache: Some(SteppingKeyValueCache { offset: 7 })
            },
            Op::GivenCache {
                layer: 1,
                cache: None
            },
            Op::CreateMask,
        ]
    );
    assert_eq!(tape.instrs[4].args, [1, 2, 3]);
    for instr in &tape.instrs {
        if let Op::Attend { .. } = instr.op {
            assert_eq!(instr.args[3], 4);
        }
    }
}

#[test]
fn no_caches_and_new_caches_record_the_same_layers() {
    let model = Glm4MoeLiteCausalLM::new(small_args()).unwrap();
    let mut none = Vec::new();
    let mut new = vec![Some(SteppingKeyValueCache::new()); 2];
    let mut first = Tape::new();
    model.forward_hidden(&mut first, 3, true, &mut none).unwrap();
    let mut second = Tape::new();
    model.forward_hidden(&mut second, 3, true, &mut new).unwrap();
    assert_eq!(ops(&first)[4..], ops(&second)[3..]);
    assert_eq!(none, new);
}

#[test]
fn two_passes_leave_the_caches_where_one_pass_does() {
    let model = Glm4MoeLiteCausalLM::new(small_args()).unwrap();
    let mut once = Vec::new();
    model
        .forward(&mut Tape::new(), 9, false, &mut once)
        .unwrap();
    let mut twice = Vec::new();
    model
        .forward(&mut Tape::new(), 4, false, &mut twice)
        .unwrap();
    model
        .forward_all_logits(&mut Tape::new(), 5, false, &mut twice)
        .unwrap();
    assert_eq!(once, twice);
    assert_eq!(once, vec![Some(SteppingKeyValueCache { offset: 9 }); 2]);
}

#[test]
fn room_in_the_caches() {
    let cache = vec![Some(SteppingKeyValueCache { offset: i32::MAX - 3 }), None];
    assert!(all_have_room(&cache, 3));
    assert!(!all_have_room(&cache, 4));
    let low = vec![None, Some(SteppingKeyValueCache { offset: i32::MIN })];
    assert!(all_have_room(&low, i32::MAX));
    assert!(!all_have_room(&low, -1));
    assert!(all_have_room(&Vec::new(), i32::MAX));
    let mut moving = Some(SteppingKeyValueCache { offset: 2 });
    move_on(&mut moving, 6);
    assert_eq!(moving, Some(SteppingKeyValueCache { offset: 8 }));
    let mut none = None;
    move_on(&mut none, i32::MAX);
    assert_eq!(none, None);
}

#[test]
fn a_pass_with_the_wrong_number_of_caches_stops_ahead_of_the_layers() {
    let model = Glm4MoeLiteCausalLM::new(small_args()).unwrap();
    let mut cache = vec![None; 3];
    let mut tape = Tape::new();
    let error = model
        .forward_hidden(&mut tape, 2, true, &mut cache)
        .unwrap_err();
    assert_eq!(
        error,
        ModelError::CacheLengthMismatch {
            cache: 3,
            layers: 2
        }
    );
    assert_eq!(cache, vec![None; 3]);
    assert_eq!(ops(&tape), [Op::Inputs, Op::Embed, Op::GivenMask]);
    let mut short = vec![Some(SteppingKeyValueCache { offset: 5 })];
    assert!(model
        .forward_all_logits(&mut Tape::new(), 2, false, &mut short)
        .is_err());
    assert_eq!(short, [Some(SteppingKeyValueCache { offset: 5 })]);
}

#[test]
fn prepared_caches() {
    let mut cache = Vec::new();
    assert_eq!(prepare_caches(&mut cache, 3), Ok(()));
    assert_eq!(cache.len(), 3);
    assert_eq!(prepare_caches(&mut cache, 3), Ok(()));
    assert_eq!(
        prepare_caches(&mut cache, 4),
        Err(ModelError::CacheLengthMismatch {
            cache: 3,
            layers: 4
        })
    );
    assert_eq!(cache.len(), 3);
}

#[test]
fn scores_of_the_last_position() {
    let model = Glm4MoeLiteCausalLM::new(small_args()).unwrap();
    let mut tape = Tape::new();
    let out = model.forward(&mut tape, 3, false, &mut Vec::new()).unwrap();
    let n = tape.instrs.len();
    assert_eq!(
        ops(&tape)[n - 3..],
        [
            Op::RmsNorm(Site::FinalNorm),
            Op::Slice {
                rank: 3,
                axis: 1,
                span: Span::From(-1)
            },
            Op::EmbedAsLinear,
        ]
    );
    assert_eq!(tape.instrs[n - 2].args, [n - 3]);
    assert_eq!(tape.instrs[n - 1].args, [n - 2]);
    assert_eq!(out, n - 1);
}

#[test]
fn scores_of_all_positions() {
    let mut args = small_args();
    args.tie_word_embeddings = false;
    let model = Glm4MoeLiteCausalLM::new(args).unwrap();
    let mut tape = Tape::new();
    let out = model
        .forward_all_logits(&mut tape, 3, false, &mut Vec::new())
        .unwrap();
    let n = tape.instrs.len();
    assert_eq!(
        ops(&tape)[n - 2..],
        [Op::RmsNorm(Site::FinalNorm), Op::QLinear(Site::LmHead)]
    );
    assert_eq!(tape.instrs[n - 1].args, [n - 2]);
    assert_eq!(out, n - 1);
}

#[test]
fn a_pass_stops_at_the_layer_that_lacks_a_module() {
    let mut args = small_args();
    args.num_hidden_layers = 3;
    let mut model = Glm4MoeLiteCausalLM::new(args).unwrap();
    model.model.layers[1].self_attn.q_b_proj = None;
    let mut tape = Tape::new();
    let mut cache = Vec::new();
    let error = model.forward(&mut tape, 6, true, &mut cache).unwrap_err();
    assert_eq!(error, ModelError::Missing(Module::QBProj));
    let offsets: Vec<i32> = cache.iter().flatten().map(|c| c.offset).collect();
    assert_eq!(offsets, [6, 0, 0]);
    assert_eq!(updated(&tape), [0]);
    assert_eq!(tape.instrs.last().unwrap().op, Op::LeadingDims);
}

#[test]
fn operands_come_before_their_uses() {
    let mut args = small_args();
    args.num_hidden_layers = 4;
    let model = Glm4MoeLiteCausalLM::new(args).unwrap();
    let mut tape = Tape::new();
    model.forward(&mut tape, 3, false, &mut Vec::new()).unwrap();
    for (i, instr) in tape.instrs.iter().enumerate() {
        assert!(instr.args.iter().all(|&a| a < i));
    }
}
