use glm4_moe_lite::binary32::Binary32;
use glm4_moe_lite::config::{
    default_norm_topk_prob, default_rope_theta, Glm4MoeLiteModelArgs, ModelConfig,
    QuantizationConfig,
};
use serde_json::Value;

fn integer(value: &Value) -> i32 {
    i32::try_from(value.as_i64().unwrap()).unwrap()
}

fn single(value: &Value) -> Binary32 {
    Binary32 {
        bits: (value.as_f64().unwrap() as f32).to_bits(),
    }
}

fn parse(json: &str) -> ModelConfig {
    let v: Value = serde_json::from_str(json).unwrap();
    ModelConfig {
        model_type: v["model_type"].as_str().unwrap().to_owned(),
        hidden_size: integer(&v["hidden_size"]),
        num_hidden_layers: integer(&v["num_hidden_layers"]),
        intermediate_size: v.get("intermediate_size").map(integer),
        num_attention_heads: integer(&v["num_attention_heads"]),
        num_key_value_heads: v.get("num_key_value_heads").map(integer),
        rms_norm_eps: single(&v["rms_norm_eps"]),
        vocab_size: integer(&v["vocab_size"]),
        max_position_embeddings: v.get("max_position_embeddings").map(integer),
        rope_theta: v.get("rope_theta").map(single),
        tie_word_embeddings: v.get("tie_word_embeddings").map(|b| b.as_bool().unwrap()),
        kv_lora_rank: integer(&v["kv_lora_rank"]),
        q_lora_rank: v.get("q_lora_rank").map(integer),
        qk_rope_head_dim: integer(&v["qk_rope_head_dim"]),
        v_head_dim: integer(&v["v_head_dim"]),
        qk_nope_head_dim: integer(&v["qk_nope_head_dim"]),
        n_routed_experts: v.get("n_routed_experts").map(integer),
        n_shared_experts: v.get("n_shared_experts").map(integer),
        num_experts_per_tok: v.get("num_experts_per_tok").map(integer),
        moe_intermediate_size: v.get("moe_intermediate_size").map(integer),
        routed_scaling_factor: v.get("routed_scaling_factor").map(single),
        first_k_dense_replace: v.get("first_k_dense_replace").map(integer),
        norm_topk_prob: v.get("norm_topk_prob").map(|b| b.as_bool().unwrap()),
        num_nextn_predict_layers: v.get("num_nextn_predict_layers").map(integer),
        quantization: v.get("quantization").map(|q| QuantizationConfig {
            group_size: integer(&q["group_size"]),
            bits: integer(&q["bits"]),
        }),
    }
}

fn full_config() -> ModelConfig {
    parse(
        r#"{
            "model_type": "glm4_moe_lite",
            "hidden_size": 2048,
            "num_hidden_layers": 47,
            "intermediate_size": 1536,
            "num_attention_heads": 20,
            "num_key_value_heads": 20,
            "rms_norm_eps": 1e-06,
            "vocab_size": 151936,
            "max_position_embeddings": 131072,
            "rope_theta": 1000000.0,
            "tie_word_embeddings": false,
            "kv_lora_rank": 512,
            "q_lora_rank": 768,
            "qk_rope_head_dim": 64,
            "v_head_dim": 256,
            "qk_nope_head_dim": 192,
            "n_routed_experts": 64,
            "n_shared_experts": 1,
            "num_experts_per_tok": 4,
            "moe_intermediate_size": 1536,
            "routed_scaling_factor": 1.8,
            "first_k_dense_replace": 1,
            "norm_topk_prob": true,
            "num_nextn_predict_layers": 1
        }"#,
    )
}

fn glm4_moe_lite_args() -> Glm4MoeLiteModelArgs {
    let mut config = full_config();
    config.quantization = Some(QuantizationConfig {
        group_size: 64,
        bits: 4,
    });
    Glm4MoeLiteModelArgs::from_config(config)
}

#[test]
fn test_config_deserialization() {
    let args = Glm4MoeLiteModelArgs::from_config(full_config());
    assert_eq!(args.model_type, "glm4_moe_lite");
    assert_eq!(args.hidden_size, 2048);
    assert_eq!(args.kv_lora_rank, 512);
    assert_eq!(args.q_lora_rank, Some(768));
    assert_eq!(args.qk_nope_head_dim, 192);
    assert_eq!(args.qk_rope_head_dim, 64);
    assert_eq!(args.v_head_dim, 256);
    assert_eq!(args.q_head_dim(), 256);
    assert_eq!(args.n_routed_experts, Some(64));
    assert_eq!(args.n_shared_experts, Some(1));
    assert_eq!(args.num_experts_per_tok, Some(4));
    assert_eq!(
        args.routed_scaling_factor.map(|f| f32::from_bits(f.bits)),
        Some(1.8)
    );
    assert!(args.norm_topk_prob);
}

#[test]
fn test_config_defaults() {
    let json = r#"{
            "model_type": "glm4_moe_lite",
            "hidden_size": 2048,
            "num_hidden_layers": 47,
            "intermediate_size": 1536,
            "num_attention_heads": 20,
            "rms_norm_eps": 1e-06,
            "vocab_size": 151936,
            "kv_lora_rank": 512,
            "qk_rope_head_dim": 64,
            "v_head_dim": 256,
            "qk_nope_head_dim": 192
        }"#;

    let args = Glm4MoeLiteModelArgs::from_config(parse(json));
    assert_eq!(f32::from_bits(args.rope_theta.bits), 1_000_000.0);
    assert_eq!(args.max_position_embeddings, 0);
    assert!(!args.tie_word_embeddings);
    assert!(args.q_lora_rank.is_none());
    assert!(args.n_routed_experts.is_none());
    assert!(args.n_shared_experts.is_none());
    assert!(!args.norm_topk_prob);
    assert_eq!(args.first_k_dense_replace, 0);
}

#[test]
fn test_q_head_dim() {
    let args = glm4_moe_lite_args();
    assert_eq!(args.q_head_dim(), 256);
}

#[test]
fn test_is_moe_layer_first_dense() {
    let args = glm4_moe_lite_args();
    assert!(
        !args.is_moe_layer(0),
        "layer 0 should be dense (first_k_dense_replace=1)"
    );
}

#[test]
fn test_is_moe_layer_after_dense() {
    let args = glm4_moe_lite_args();
    assert!(args.is_moe_layer(1));
    assert!(args.is_moe_layer(10));
    assert!(args.is_moe_layer(46));
}

#[test]
fn test_is_moe_layer_no_experts() {
    let mut args = glm4_moe_lite_args();
    args.n_routed_experts = None;
    assert!(!args.is_moe_layer(5));
}

#[test]
fn no_layer_is_routed_to_zero_or_fewer_experts() {
    let mut args = glm4_moe_lite_args();
    args.n_routed_experts = Some(0);
    assert!(!args.is_moe_layer(5));
    args.n_routed_experts = Some(-3);
    assert!(!args.is_moe_layer(5));
}

#[test]
fn routing_starts_at_the_first_layer_that_is_not_dense() {
    let mut args = glm4_moe_lite_args();
    args.first_k_dense_replace = 7;
    assert!(!args.is_moe_layer(6));
    assert!(args.is_moe_layer(7));
    args.first_k_dense_replace = -1;
    assert!(args.is_moe_layer(0));
}

#[test]
fn given_settings_are_kept() {
    let args = glm4_moe_lite_args();
    assert_eq!(args.num_hidden_layers, 47);
    assert_eq!(args.intermediate_size, 1536);
    assert_eq!(args.num_attention_heads, 20);
    assert_eq!(args.num_key_value_heads, 20);
    assert_eq!(f32::from_bits(args.rms_norm_eps.bits), 1e-6);
    assert_eq!(args.vocab_size, 151_936);
    assert_eq!(args.max_position_embeddings, 131_072);
    assert_eq!(args.moe_intermediate_size, Some(1536));
    assert_eq!(args.first_k_dense_replace, 1);
    assert_eq!(args.num_nextn_predict_layers, 1);
    assert_eq!(
        args.quantization,
        Some(QuantizationConfig {
            group_size: 64,
            bits: 4
        })
    );
    let mut config = full_config();
    config.rope_theta = Some(Binary32 {
        bits: 10_000.0_f32.to_bits(),
    });
    config.tie_word_embeddings = Some(true);
    let other = Glm4MoeLiteModelArgs::from_config(config);
    assert_eq!(f32::from_bits(other.rope_theta.bits), 10_000.0);
    assert!(other.tie_word_embeddings);
}

#[test]
fn defaults_of_single_settings() {
    assert_eq!(f32::from_bits(default_rope_theta().bits), 1_000_000.0);
    assert!(!default_norm_topk_prob());
    let mut config = full_config();
    config.intermediate_size = None;
    config.num_key_value_heads = None;
    config.num_nextn_predict_layers = None;
    let args = Glm4MoeLiteModelArgs::from_config(config);
    assert_eq!(args.intermediate_size, 0);
    assert_eq!(args.num_key_value_heads, 0);
    assert_eq!(args.num_nextn_predict_layers, 0);
}

#[test]
fn head_width_at_the_edge_of_its_type() {
    let mut args = glm4_moe_lite_args();
    assert!(args.head_width_fits());
    args.qk_nope_head_dim = i32::MAX;
    args.qk_rope_head_dim = 1;
    assert!(!args.head_width_fits());
    args.qk_rope_head_dim = 0;
    assert!(args.head_width_fits());
    args.qk_nope_head_dim = i32::MIN;
    args.qk_rope_head_dim = -1;
    assert!(!args.head_width_fits());
}

#[test]
fn routing_at_the_edge_of_its_type() {
    let mut args = glm4_moe_lite_args();
    assert!(args.check_routing());
    args.n_routed_experts = Some(64);
    args.num_experts_per_tok = Some(64 - i32::MAX);
    assert!(args.check_routing());
    args.num_experts_per_tok = Some(63 - i32::MAX);
    assert!(!args.check_routing());
    args.first_k_dense_replace = 47;
    assert!(args.check_routing());
    args.first_k_dense_replace = 0;
    args.n_routed_experts = None;
    assert!(args.check_routing());
}
