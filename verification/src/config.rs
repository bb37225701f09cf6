//! The configuration of a model.
use vstd::arithmetic::power2::{lemma2_to64, lemma_pow2_adds, pow2};
use vstd::prelude::*;

use crate::binary32::Binary32;

verus! {

/// How the weights are quantized.
#[derive(Debug, Clone, Copy, PartialEq, Eq, Structural)]
pub struct QuantizationConfig {
    pub group_size: i32,
    pub bits: i32,
}

/// A configuration as it was read: what may be left out is optional.
#[derive(Debug, Clone)]
pub struct ModelConfig {
    pub model_type: String,
    pub hidden_size: i32,
    pub num_hidden_layers: i32,
    pub intermediate_size: Option<i32>,
    pub num_attention_heads: i32,
    pub num_key_value_heads: Option<i32>,
    pub rms_norm_eps: Binary32,
    pub vocab_size: i32,
    pub max_position_embeddings: Option<i32>,
    pub rope_theta: Option<Binary32>,
    pub tie_word_embeddings: Option<bool>,
    pub kv_lora_rank: i32,
    pub q_lora_rank: Option<i32>,
    pub qk_rope_head_dim: i32,
    pub v_head_dim: i32,
    pub qk_nope_head_dim: i32,
    pub n_routed_experts: Option<i32>,
    pub n_shared_experts: Option<i32>,
    pub num_experts_per_tok: Option<i32>,
    pub moe_intermediate_size: Option<i32>,
    pub routed_scaling_factor: Option<Binary32>,
    pub first_k_dense_replace: Option<i32>,
    pub norm_topk_prob: Option<bool>,
    pub num_nextn_predict_layers: Option<i32>,
    pub quantization: Option<QuantizationConfig>,
}

/// The settings of a model, complete with defaults.
#[derive(Debug, Clone)]
pub struct Glm4MoeLiteModelArgs {
    pub model_type: String,
    pub hidden_size: i32,
    pub num_hidden_layers: i32,
    pub intermediate_size: i32,
    pub num_attention_heads: i32,
    pub num_key_value_heads: i32,
    pub rms_norm_eps: Binary32,
    pub vocab_size: i32,
    pub max_position_embeddings: i32,
    pub rope_theta: Binary32,
    pub tie_word_embeddings: bool,
    // Latent attention.
    pub kv_lora_rank: i32,
    pub q_lora_rank: Option<i32>,
    pub qk_rope_head_dim: i32,
    pub v_head_dim: i32,
    pub qk_nope_head_dim: i32,
    // Experts.
    pub n_routed_experts: Option<i32>,
    pub n_shared_experts: Option<i32>,
    pub num_experts_per_tok: Option<i32>,
    pub moe_intermediate_size: Option<i32>,
    pub routed_scaling_factor: Option<Binary32>,
    pub first_k_dense_replace: i32,
    pub norm_topk_prob: bool,
    pub num_nextn_predict_layers: i32,
    pub quantization: Option<QuantizationConfig>,
}

/// The rotary base for a configuration that leaves it out: 1000000.
pub const DEFAULT_ROPE_THETA_BITS: u32 = 0x4974_2400;

/// The rotary base for a configuration that leaves it out.
pub fn default_rope_theta() -> (theta: Binary32)
    ensures
        theta.bits == DEFAULT_ROPE_THETA_BITS,
        theta.is_number(1_000_000),
{
    proof {
        lemma_default_rope_theta();
    }
    Binary32 { bits: DEFAULT_ROPE_THETA_BITS }
}

proof fn lemma_default_rope_theta()
    ensures
        (Binary32 { bits: DEFAULT_ROPE_THETA_BITS }).is_number(1_000_000),
{
    lemma2_to64();
    lemma_pow2_adds(4, 145);
    let p = pow2(145);
    assert(pow2(149) == 16 * p);
    assert((Binary32 { bits: DEFAULT_ROPE_THETA_BITS }).units() == 16_000_000 * p);
}

/// Whether the expert scores are normalised, for a configuration that does not
/// say.
pub fn default_norm_topk_prob() -> (normalised: bool)
    ensures
        normalised == false,
{
    false
}

/// The value of an optional setting, or its default.
pub open spec fn given_or<T>(setting: Option<T>, default: T) -> T {
    match setting {
        Some(value) => value,
        None => default,
    }
}

fn or_zero(setting: Option<i32>) -> (value: i32)
    ensures
        value == given_or(setting, 0),
{
    match setting {
        Some(value) => value,
        None => 0,
    }
}

impl Glm4MoeLiteModelArgs {
    /// Completes a configuration with the defaults.
    pub fn from_config(config: ModelConfig) -> (args: Self)
        ensures
            args.model_type == config.model_type,
            args.hidden_size == config.hidden_size,
            args.num_hidden_layers == config.num_hidden_layers,
            args.intermediate_size == given_or(config.intermediate_size, 0),
            args.num_attention_heads == config.num_attention_heads,
            args.num_key_value_heads == given_or(config.num_key_value_heads, 0),
            args.rms_norm_eps == config.rms_norm_eps,
            args.vocab_size == config.vocab_size,
            args.max_position_embeddings == given_or(config.max_position_embeddings, 0),
            args.rope_theta == given_or(
                config.rope_theta,
                (Binary32 { bits: DEFAULT_ROPE_THETA_BITS }),
            ),
            args.tie_word_embeddings == given_or(config.tie_word_embeddings, false),
            args.kv_lora_rank == config.kv_lora_rank,
            args.q_lora_rank == config.q_lora_rank,
            args.qk_rope_head_dim == config.qk_rope_head_dim,
            args.v_head_dim == config.v_head_dim,
            args.qk_nope_head_dim == config.qk_nope_head_dim,
            args.n_routed_experts == config.n_routed_experts,
            args.n_shared_experts == config.n_shared_experts,
            args.num_experts_per_tok == config.num_experts_per_tok,
            args.moe_intermediate_size == config.moe_intermediate_size,
            args.routed_scaling_factor == config.routed_scaling_factor,
            args.first_k_dense_replace == given_or(config.first_k_dense_replace, 0),
            args.norm_topk_prob == given_or(config.norm_topk_prob, false),
            args.num_nextn_predict_layers == given_or(config.num_nextn_predict_layers, 0),
            args.quantization == config.quantization,
    {
        Glm4MoeLiteModelArgs {
            model_type: config.model_type,
            hidden_size: config.hidden_size,
            num_hidden_layers: config.num_hidden_layers,
            intermediate_size: or_zero(config.intermediate_size),
            num_attention_heads: config.num_attention_heads,
            num_key_value_heads: or_zero(config.num_key_value_heads),
            rms_norm_eps: config.rms_norm_eps,
            vocab_size: config.vocab_size,
            max_position_embeddings: or_zero(config.max_position_embeddings),
            rope_theta: match config.rope_theta {
                Some(theta) => theta,
                None => default_rope_theta(),
            },
            tie_word_embeddings: match config.tie_word_embeddings {
                Some(tied) => tied,
                None => false,
            },
            kv_lora_rank: config.kv_lora_rank,
            q_lora_rank: config.q_lora_rank,
            qk_rope_head_dim: config.qk_rope_head_dim,
            v_head_dim: config.v_head_dim,
            qk_nope_head_dim: config.qk_nope_head_dim,
            n_routed_experts: config.n_routed_experts,
            n_shared_experts: config.n_shared_experts,
            num_experts_per_tok: config.num_experts_per_tok,
            moe_intermediate_size: config.moe_intermediate_size,
            routed_scaling_factor: config.routed_scaling_factor,
            first_k_dense_replace: or_zero(config.first_k_dense_replace),
            norm_topk_prob: match config.norm_topk_prob {
                Some(normalised) => normalised,
                None => default_norm_topk_prob(),
            },
            num_nextn_predict_layers: or_zero(config.num_nextn_predict_layers),
            quantization: config.quantization,
        }
    }

    /// The width of a query head: its plain part and its rotary part.
    pub open spec fn head_width(&self) -> int {
        self.qk_nope_head_dim + self.qk_rope_head_dim
    }

    /// The width of a query head.
    pub fn q_head_dim(&self) -> (width: i32)
        requires
            i32::MIN <= self.head_width() <= i32::MAX,
        ensures
            width == self.head_width(),
    {
        self.qk_nope_head_dim + self.qk_rope_head_dim
    }

    /// Layer `layer_idx` has routed experts: there are some, and the layer comes
    /// behind the dense ones at the start.
    pub open spec fn routes(&self, layer_idx: int) -> bool {
        &&& self.n_routed_experts matches Some(n)
        &&& n > 0
        &&& layer_idx >= self.first_k_dense_replace
    }

    /// Whether a layer has routed experts.
    pub fn is_moe_layer(&self, layer_idx: i32) -> (routed: bool)
        ensures
            routed == self.routes(layer_idx as int),
    {
        let n_routed: i32 = match self.n_routed_experts {
            Some(n) => n,
            None => {
                return false;
            },
        };
        if n_routed <= 0 {
            return false;
        }
        if layer_idx < self.first_k_dense_replace {
            return false;
        }
        true
    }

    /// The width of a query head fits its type.
    pub fn head_width_fits(&self) -> (fits: bool)
        ensures
            fits == (i32::MIN <= self.head_width() <= i32::MAX),
    {
        let width: i64 = self.qk_nope_head_dim as i64 + self.qk_rope_head_dim as i64;
        -0x8000_0000 <= width && width <= 0x7FFF_FFFF
    }

    /// If the last layer is routed, the number of experts that a token is not
    /// routed to fits its type.
    pub open spec fn routing_fits(&self) -> bool {
        self.routes(self.num_hidden_layers - 1) ==> given_or(self.n_routed_experts, 0) - given_or(
            self.num_experts_per_tok,
            2,
        ) <= i32::MAX
    }

    /// Whether the sizes that routing computes fit their types.
    pub fn check_routing(&self) -> (fits: bool)
        ensures
            fits == self.routing_fits(),
    {
        let n_routed: i32 = or_zero(self.n_routed_experts);
        let top_k: i32 = match self.num_experts_per_tok {
            Some(k) => k,
            None => 2,
        };
        if n_routed <= 0 || self.first_k_dense_replace >= self.num_hidden_layers {
            return true;
        }
        n_routed as i64 - top_k as i64 <= 0x7FFF_FFFF
    }

    /// The quantization group size: 64 for a configuration that does not say.
    pub open spec fn group_size(&self) -> i32 {
        match self.quantization {
            Some(q) => q.group_size,
            None => 64,
        }
    }

    /// The bits per quantized weight: 4 for a configuration that does not say.
    pub open spec fn weight_bits(&self) -> i32 {
        match self.quantization {
            Some(q) => q.bits,
            None => 4,
        }
    }
}

} // verus!
