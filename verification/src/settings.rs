//! What of the settings reaches a model and its passes, and when settings and
//! passes are refused.
use vstd::arithmetic::power2::{lemma2_to64, lemma_pow2_adds, lemma_pow2_pos, pow2};
use vstd::prelude::*;

use crate::attention::{Glm4MoeLiteAttention, LATENT_NORM_EPS_BITS};
use crate::binary32::{law_neighbours_of_one, Binary32, ONE_BITS};
use crate::cache::{start_of, SteppingKeyValueCache};
use crate::config::Glm4MoeLiteModelArgs;
use crate::decoder::Glm4MoeLiteDecoderLayer;
use crate::error::{ModelError, Module};
use crate::laws::{law_laid_out_models_fit, lemma_no_module_missing};
use crate::mlp::{Glm4MoeLiteMlpBlock, SharedExperts};
use crate::model::{
    caches_in_use, layer_layouts, stack_missing, stack_ops, Glm4MoeLiteCausalLM, Glm4MoeLiteInner,
};
use crate::tape::{LayerPart, Op, Site, Span};
use crate::weights::{Linear, QLinear, RmsNorm};

verus! {

/// Each attention of a model has the heads, the widths, the rank and the rotary
/// base of the settings. Its queries go by way of a compressed form if and only
/// if the settings give that a rank.
pub proof fn law_attention_follows_the_settings(
    lm: Glm4MoeLiteCausalLM,
    args: Glm4MoeLiteModelArgs,
    i: int,
)
    requires
        lm.is_layout(args),
        0 <= i < lm.model.layers@.len(),
        Glm4MoeLiteCausalLM::rejection(args) is None,
    ensures
        ({
            let a = lm.model.layers@[i].self_attn;
            &&& a.num_heads == args.num_attention_heads
            &&& a.kv_lora_rank == args.kv_lora_rank
            &&& a.qk_nope_head_dim == args.qk_nope_head_dim
            &&& a.qk_rope_head_dim == args.qk_rope_head_dim
            &&& a.v_head_dim == args.v_head_dim
            &&& a.head_dim == args.qk_nope_head_dim + args.qk_rope_head_dim
            &&& a.rope_base == args.rope_theta
            &&& a.use_compressed_query <==> args.q_lora_rank is Some
            &&& a.q_a_proj is Some <==> args.q_lora_rank is Some
            &&& a.q_b_proj is Some <==> args.q_lora_rank is Some
            &&& a.q_proj is Some <==> args.q_lora_rank is None
            &&& match args.q_lora_rank {
                Some(rank) => a.q_a_layernorm matches Some(norm) && norm.dims == rank,
                None => a.q_a_layernorm is None,
            }
            &&& a.kv_a_layernorm.dims == args.kv_lora_rank
        }),
{
    assert(lm.model.layers@[i] == Glm4MoeLiteDecoderLayer::layout(
        args,
        i,
        args.group_size(),
        args.weight_bits(),
    ));
}

/// Each feed-forward block of a model is routed where the settings give experts
/// and the dense layers are over, and dense elsewhere. A routed block has as many
/// experts, sends a token to as many of them, scales and normalises as the
/// settings say; where they are silent it is 2 experts for a token and a factor
/// of 1. It has shared experts if and only if the settings give some.
pub proof fn law_blocks_follow_the_settings(
    lm: Glm4MoeLiteCausalLM,
    args: Glm4MoeLiteModelArgs,
    i: int,
)
    requires
        lm.is_layout(args),
        0 <= i < lm.model.layers@.len(),
    ensures
        ({
            let b = lm.model.layers@[i].mlp;
            let experts = match args.n_routed_experts {
                Some(n) => n as int,
                None => 0,
            };
            let routed = experts > 0 && i >= args.first_k_dense_replace;
            let shared = args.n_shared_experts matches Some(n) && n > 0;
            &&& b.is_moe <==> routed
            &&& b.gate is Some <==> routed
            &&& b.switch_mlp is Some <==> routed
            &&& b.shared_experts is Some <==> routed && shared
            &&& b.gate_proj is Some <==> !routed
            &&& b.up_proj is Some <==> !routed
            &&& b.down_proj is Some <==> !routed
            &&& routed ==> {
                &&& b.num_experts == experts
                &&& b.top_k == match args.num_experts_per_tok {
                    Some(k) => k as int,
                    None => 2,
                }
                &&& b.norm_topk_prob == args.norm_topk_prob
                &&& match args.routed_scaling_factor {
                    Some(factor) => b.scaling_factor == factor,
                    None => b.scaling_factor.is_number(1),
                }
                &&& b.gate matches Some(gate) && gate.input_dims == args.hidden_size
                    && gate.output_dims == experts && !gate.bias
            }
        }),
{
    assert(lm.model.layers@[i] == Glm4MoeLiteDecoderLayer::layout(
        args,
        i,
        args.group_size(),
        args.weight_bits(),
    ));
    lemma2_to64();
    lemma_pow2_adds(23, 126);
    assert((Binary32 { bits: ONE_BITS }).is_number(1)) by {
        assert(pow2(149) == 0x80_0000 * pow2(126));
    }
}

/// All quantized weights of a model have the group size and the bits of the
/// settings, or 64 and 4 where they are silent. The normalisations of the hidden
/// states have the width and the epsilon of the settings. The model has an output
/// projection if and only if its embedding does not serve as one.
pub proof fn law_weights_follow_the_settings(
    lm: Glm4MoeLiteCausalLM,
    args: Glm4MoeLiteModelArgs,
    i: int,
)
    requires
        lm.is_layout(args),
        0 <= i < lm.model.layers@.len(),
    ensures
        ({
            let (group_size, bits) = match args.quantization {
                Some(q) => (q.group_size, q.bits),
                None => (64i32, 4i32),
            };
            let quantized = QLinear { group_size, bits };
            let norm = RmsNorm { dims: args.hidden_size, eps: args.rms_norm_eps };
            let l = lm.model.layers@[i];
            let a = l.self_attn;
            let b = l.mlp;
            &&& lm.args == args
            &&& lm.model.embed_tokens.group_size == group_size
            &&& lm.model.embed_tokens.bits == bits
            &&& lm.model.norm == norm
            &&& l.input_layernorm == norm
            &&& l.post_attention_layernorm == norm
            &&& lm.lm_head is None <==> args.tie_word_embeddings
            &&& lm.lm_head matches Some(w) ==> w == quantized
            &&& a.q_a_proj matches Some(w) ==> w == quantized
            &&& a.q_b_proj matches Some(w) ==> w == quantized
            &&& a.q_proj matches Some(w) ==> w == quantized
            &&& a.kv_a_proj_with_mqa == quantized
            &&& a.kv_b_proj == quantized
            &&& a.o_proj == quantized
            &&& b.gate_proj matches Some(w) ==> w == quantized
            &&& b.up_proj matches Some(w) ==> w == quantized
            &&& b.down_proj matches Some(w) ==> w == quantized
            &&& b.switch_mlp matches Some(w) ==> w.group_size == group_size && w.bits == bits
            &&& b.shared_experts matches Some(s) ==> s.gate_proj == quantized && s.up_proj
                == quantized && s.down_proj == quantized
        }),
{
    assert(lm.model.layers@[i] == Glm4MoeLiteDecoderLayer::layout(
        args,
        i,
        args.group_size(),
        args.weight_bits(),
    ));
}

/// The normalisations of the compressed queries, keys and values have the epsilon
/// that is nearest to a millionth: no neighbour of it is nearer.
pub proof fn law_latent_norms_have_an_epsilon_of_a_millionth(
    lm: Glm4MoeLiteCausalLM,
    args: Glm4MoeLiteModelArgs,
    i: int,
)
    requires
        lm.is_layout(args),
        0 <= i < lm.model.layers@.len(),
    ensures
        ({
            let a = lm.model.layers@[i].self_attn;
            let eps = a.kv_a_layernorm.eps;
            let above = Binary32 { bits: (eps.bits + 1) as u32 };
            let below = Binary32 { bits: (eps.bits - 1) as u32 };
            let gap = |x: Binary32| 1_000_000 * x.units() - pow2(149);
            &&& a.q_a_layernorm matches Some(norm) ==> norm.eps == eps
            &&& gap(below) < gap(eps) <= 0
            &&& 0 < gap(above)
            &&& -gap(eps) < gap(above)
        }),
{
    assert(lm.model.layers@[i] == Glm4MoeLiteDecoderLayer::layout(
        args,
        i,
        args.group_size(),
        args.weight_bits(),
    ));
    lemma2_to64();
    lemma_pow2_pos(106);
    lemma_pow2_adds(11, 32);
    lemma_pow2_adds(43, 106);
    let p = pow2(106);
    assert(pow2(149) == 0x800_0000_0000 * p);
    let eps = Binary32 { bits: LATENT_NORM_EPS_BITS };
    assert(eps.units() == 8_796_093 * p);
    let above = Binary32 { bits: (eps.bits + 1) as u32 };
    let below = Binary32 { bits: (eps.bits - 1) as u32 };
    assert(above.units() == 8_796_094 * p);
    assert(below.units() == 8_796_092 * p);
}

/// The attributes of an operation are those that the settings and the caches in
/// use call for.
spec fn attributes_follow(
    op: Op,
    args: Glm4MoeLiteModelArgs,
    given: Seq<Option<SteppingKeyValueCache>>,
    caches: Seq<Option<SteppingKeyValueCache>>,
) -> bool {
    let nope = args.qk_nope_head_dim;
    let rope = args.qk_rope_head_dim;
    let rank = args.kv_lora_rank;
    let top_k = match args.num_experts_per_tok {
        Some(k) => k as int,
        None => 2,
    };
    match op {
        Op::Rope { width, base, offset } => {
            &&& width == rope
            &&& base == args.rope_theta
            &&& exists|i: int|
                0 <= i < caches.len() && match #[trigger] caches[i] {
                    Some(c) => offset == c.offset,
                    None => offset == 0,
                }
        },
        Op::Attend { head_dim } => head_dim == nope + rope,
        Op::SplitHeads { heads, width } => {
            ||| heads == args.num_attention_heads && width == nope + rope
            ||| heads == args.num_attention_heads && width == -1
            ||| heads == 1 && width == rope
        },
        Op::BroadcastHeads { heads, width } => heads == args.num_attention_heads && width == rope,
        Op::Slice { rank: axes, axis, span } => {
            ||| axes == 4 && axis == 3 && (span == Span::To(nope) || span == Span::From(nope))
            ||| axes == 3 && axis == 2 && (span == Span::To(rank) || span == Span::From(rank))
            ||| axes == 3 && axis == 2 && (args.n_routed_experts matches Some(n) && (
            span matches Span::From(from) && from == n - top_k))
        },
        Op::ArgPartition { kth } => kth == -top_k,
        Op::ScalarLike { value } => args.routed_scaling_factor == Some(value),
        Op::CacheUpdate { layer, offset } => {
            &&& layer < caches.len()
            &&& caches[layer as int] == Some(SteppingKeyValueCache { offset })
        },
        Op::FillCaches { layers } => given.len() == 0 && layers == args.num_hidden_layers,
        Op::GivenCache { layer, cache } => layer < given.len() && cache == given[layer as int],
        Op::QLinear(site) | Op::Linear(site) | Op::RmsNorm(site) | Op::SwitchMlp(site) =>
            match site {
                Site::Layer(layer, part) => layer < args.num_hidden_layers,
                Site::FinalNorm => op == Op::RmsNorm(site),
                Site::LmHead => false,
            },
        _ => true,
    }
}

spec fn all_follow(
    ops: Seq<Op>,
    args: Glm4MoeLiteModelArgs,
    given: Seq<Option<SteppingKeyValueCache>>,
    caches: Seq<Option<SteppingKeyValueCache>>,
) -> bool {
    forall|k: int| 0 <= k < ops.len() ==> attributes_follow(#[trigger] ops[k], args, given, caches)
}

proof fn lemma_attention_follows(
    args: Glm4MoeLiteModelArgs,
    i: int,
    given: Seq<Option<SteppingKeyValueCache>>,
    caches: Seq<Option<SteppingKeyValueCache>>,
)
    requires
        Glm4MoeLiteCausalLM::rejection(args) is None,
        0 <= i < args.num_hidden_layers,
        caches.len() == args.num_hidden_layers,
    ensures
        all_follow(
            Glm4MoeLiteAttention::layout(args, args.group_size(), args.weight_bits()).ops(
                i as usize,
                caches[i],
            ),
            args,
            given,
            caches,
        ),
{
    let a = Glm4MoeLiteAttention::layout(args, args.group_size(), args.weight_bits());
    let layer = i as usize;
    let cache = caches[i];
    reveal(Glm4MoeLiteAttention::ops);
    assert(all_follow(a.query_ops(layer), args, given, caches));
    assert(all_follow(a.head_ops(layer), args, given, caches));
    assert(all_follow(a.position_ops(cache), args, given, caches)) by {
        let offset = start_of(cache);
        assert(match caches[i] {
            Some(c) => offset == c.offset,
            None => offset == 0,
        });
    }
    assert(all_follow(Glm4MoeLiteAttention::cache_ops(layer, cache), args, given, caches));
    assert(all_follow(a.output_ops(layer), args, given, caches));
}

proof fn lemma_block_follows(
    args: Glm4MoeLiteModelArgs,
    i: int,
    given: Seq<Option<SteppingKeyValueCache>>,
    caches: Seq<Option<SteppingKeyValueCache>>,
)
    requires
        0 <= i < args.num_hidden_layers,
        args.routing_fits(),
    ensures
        all_follow(
            Glm4MoeLiteDecoderLayer::mlp_layout(
                args,
                i,
                args.group_size(),
                args.weight_bits(),
            ).ops(i as usize),
            args,
            given,
            caches,
        ),
{
    let b = Glm4MoeLiteDecoderLayer::mlp_layout(args, i, args.group_size(), args.weight_bits());
    let layer = i as usize;
    reveal(Glm4MoeLiteMlpBlock::ops);
    if b.is_moe {
        if args.routed_scaling_factor is None {
            law_neighbours_of_one(b.scaling_factor);
        }
        assert(args.routes(i));
        assert(args.routes(args.num_hidden_layers - 1));
        assert(all_follow(b.scoring_ops(layer), args, given, caches));
        assert(all_follow(SharedExperts::ops(layer), args, given, caches));
        assert(all_follow(b.moe_ops(layer), args, given, caches));
    } else {
        assert(all_follow(b.dense_ops(layer), args, given, caches));
    }
}

proof fn lemma_layer_follows(
    args: Glm4MoeLiteModelArgs,
    i: int,
    given: Seq<Option<SteppingKeyValueCache>>,
    caches: Seq<Option<SteppingKeyValueCache>>,
)
    requires
        Glm4MoeLiteCausalLM::rejection(args) is None,
        0 <= i < args.num_hidden_layers,
        caches.len() == args.num_hidden_layers,
        args.routing_fits(),
    ensures
        all_follow(
            Glm4MoeLiteDecoderLayer::layout(args, i, args.group_size(), args.weight_bits()).ops(
                i as usize,
                caches[i],
            ),
            args,
            given,
            caches,
        ),
{
    lemma_attention_follows(args, i, given, caches);
    lemma_block_follows(args, i, given, caches);
    reveal(Glm4MoeLiteDecoderLayer::ops);
}

proof fn lemma_stack_follows(
    args: Glm4MoeLiteModelArgs,
    given: Seq<Option<SteppingKeyValueCache>>,
    caches: Seq<Option<SteppingKeyValueCache>>,
    n: nat,
)
    requires
        Glm4MoeLiteCausalLM::rejection(args) is None,
        n <= args.num_hidden_layers,
        caches.len() == args.num_hidden_layers,
        args.routing_fits(),
    ensures
        all_follow(
            stack_ops(layer_layouts(args, args.group_size(), args.weight_bits()), caches, n),
            args,
            given,
            caches,
        ),
    decreases n,
{
    if n > 0 {
        lemma_stack_follows(args, given, caches, (n - 1) as nat);
        lemma_layer_follows(args, n - 1, given, caches);
    }
}

/// Every operation of a pass has the attributes that the settings and the caches
/// call for: rows are turned by the rotary base of the settings, over the rotary
/// width and from where a cache stands; the scores of attention are scaled by the
/// width of a query head; heads, slices and routing go by the heads, widths, rank
/// and experts of the settings; what is scaled is scaled by the factor of the
/// settings; and each cache is updated from where it stands.
pub proof fn law_operations_follow_the_settings(
    lm: Glm4MoeLiteCausalLM,
    args: Glm4MoeLiteModelArgs,
    mask_given: bool,
    given: Seq<Option<SteppingKeyValueCache>>,
    k: int,
)
    requires
        lm.is_layout(args),
        Glm4MoeLiteCausalLM::rejection(args) is None,
        args.routing_fits(),
        lm.failure(given) is None,
        0 <= k < lm.hidden_ops(mask_given, given).len(),
    ensures
        ({
            let nope = args.qk_nope_head_dim;
            let rope = args.qk_rope_head_dim;
            let rank = args.kv_lora_rank;
            let top_k = match args.num_experts_per_tok {
                Some(k) => k as int,
                None => 2,
            };
            let op = lm.hidden_ops(mask_given, given)[k];
            match op {
                Op::Rope { width, base, offset } => {
                    &&& width == rope
                    &&& base == args.rope_theta
                    &&& given.len() == 0 ==> offset == 0
                    &&& given.len() != 0 ==> exists|i: int|
                        0 <= i < given.len() && match #[trigger] given[i] {
                            Some(c) => offset == c.offset,
                            None => offset == 0,
                        }
                },
                Op::Attend { head_dim } => head_dim == nope + rope,
                Op::SplitHeads { heads, width } => {
                    ||| heads == args.num_attention_heads && width == nope + rope
                    ||| heads == args.num_attention_heads && width == -1
                    ||| heads == 1 && width == rope
                },
                Op::BroadcastHeads { heads, width } => {
                    heads == args.num_attention_heads && width == rope
                },
                Op::Slice { rank: axes, axis, span } => {
                    ||| axes == 4 && axis == 3 && (span == Span::To(nope) || span == Span::From(nope))
                    ||| axes == 3 && axis == 2 && (span == Span::To(rank) || span == Span::From(rank))
                    ||| axes == 3 && axis == 2 && (args.n_routed_experts matches Some(n) && (
            span matches Span::From(from) && from == n - top_k))
                },
                Op::ArgPartition { kth } => kth == -top_k,
                Op::ScalarLike { value } => args.routed_scaling_factor == Some(value),
                Op::CacheUpdate { layer, offset } => {
                    &&& layer < args.num_hidden_layers
                    &&& given.len() == 0 ==> offset == 0
                    &&& given.len() != 0 ==> given[layer as int] == Some(
                        SteppingKeyValueCache { offset },
                    )
                },
                Op::FillCaches { layers } => given.len() == 0 && layers == args.num_hidden_layers,
                Op::GivenCache { layer, cache } => {
                    layer < given.len() && cache == given[layer as int]
                },
                Op::QLinear(site) | Op::Linear(site) | Op::RmsNorm(site) | Op::SwitchMlp(site) =>
                    match site {
                        Site::Layer(layer, part) => layer < args.num_hidden_layers,
                        Site::FinalNorm => op == Op::RmsNorm(site),
                        Site::LmHead => false,
                    },
                _ => true,
            }
        }),
{
    let n = lm.model.layers@.len();
    let caches = caches_in_use(given, n);
    assert(given.len() <= usize::MAX) by {
        assert(lm.model.layers.len() == n);
    }
    lemma_stack_follows(args, given, caches, n);
    assert(all_follow(lm.entry_ops(mask_given, given), args, given, caches));
    assert(all_follow(lm.hidden_ops(mask_given, given), args, given, caches));
    assert(attributes_follow(lm.hidden_ops(mask_given, given)[k], args, given, caches));
}

/// An operation with another rotary base.
spec fn rebased(op: Op, theta: Binary32) -> Op {
    match op {
        Op::Rope { width, base, offset } => Op::Rope { width, base: theta, offset },
        _ => op,
    }
}

spec fn are_rebased(ops: Seq<Op>, others: Seq<Op>, theta: Binary32) -> bool {
    &&& others.len() == ops.len()
    &&& forall|k: int| 0 <= k < ops.len() ==> #[trigger] others[k] == rebased(ops[k], theta)
}

proof fn lemma_layer_rebased(
    args: Glm4MoeLiteModelArgs,
    theta: Binary32,
    i: int,
    cache: Option<SteppingKeyValueCache>,
)
    ensures
        ({
            let (ql, qb) = (args.group_size(), args.weight_bits());
            let other = Glm4MoeLiteModelArgs { rope_theta: theta, ..args };
            are_rebased(
                Glm4MoeLiteDecoderLayer::layout(args, i, ql, qb).ops(i as usize, cache),
                Glm4MoeLiteDecoderLayer::layout(other, i, ql, qb).ops(i as usize, cache),
                theta,
            )
        }),
{
    let (ql, qb) = (args.group_size(), args.weight_bits());
    let other = Glm4MoeLiteModelArgs { rope_theta: theta, ..args };
    let layer = i as usize;
    let l1 = Glm4MoeLiteDecoderLayer::layout(args, i, ql, qb);
    let l2 = Glm4MoeLiteDecoderLayer::layout(other, i, ql, qb);
    let a1 = l1.self_attn;
    let a2 = l2.self_attn;
    reveal(Glm4MoeLiteAttention::ops);
    reveal(Glm4MoeLiteMlpBlock::ops);
    reveal(Glm4MoeLiteDecoderLayer::ops);
    assert(l1.mlp == l2.mlp);
    assert(are_rebased(a1.query_ops(layer), a2.query_ops(layer), theta));
    assert(are_rebased(a1.head_ops(layer), a2.head_ops(layer), theta));
    assert(are_rebased(a1.position_ops(cache), a2.position_ops(cache), theta));
    let updates = Glm4MoeLiteAttention::cache_ops(layer, cache);
    assert(are_rebased(updates, updates, theta));
    assert(are_rebased(a1.output_ops(layer), a2.output_ops(layer), theta));
    assert(are_rebased(a1.ops(layer, cache), a2.ops(layer, cache), theta));
    let b = l1.mlp;
    assert(are_rebased(b.scoring_ops(layer), b.scoring_ops(layer), theta));
    let shared = SharedExperts::ops(layer);
    assert(are_rebased(shared, shared, theta));
    assert(are_rebased(b.moe_ops(layer), b.moe_ops(layer), theta));
    assert(are_rebased(b.dense_ops(layer), b.dense_ops(layer), theta));
    assert(are_rebased(b.ops(layer), b.ops(layer), theta));
}

proof fn lemma_stack_rebased(
    args: Glm4MoeLiteModelArgs,
    theta: Binary32,
    caches: Seq<Option<SteppingKeyValueCache>>,
    n: nat,
)
    requires
        n <= args.num_hidden_layers,
    ensures
        ({
            let (ql, qb) = (args.group_size(), args.weight_bits());
            let other = Glm4MoeLiteModelArgs { rope_theta: theta, ..args };
            are_rebased(
                stack_ops(layer_layouts(args, ql, qb), caches, n),
                stack_ops(layer_layouts(other, ql, qb), caches, n),
                theta,
            )
        }),
    decreases n,
{
    if n > 0 {
        let (ql, qb) = (args.group_size(), args.weight_bits());
        let other = Glm4MoeLiteModelArgs { rope_theta: theta, ..args };
        let i = (n - 1) as nat;
        lemma_stack_rebased(args, theta, caches, i);
        lemma_layer_rebased(args, theta, i as int, caches[i as int]);
        lemma_no_module_missing(args, ql, qb, i);
        lemma_no_module_missing(other, ql, qb, i);
    }
}

/// Two models whose settings differ in the rotary base alone record the same
/// operations, but for the base of each rotation, which is that of the settings.
pub proof fn law_the_rotary_base_reaches_the_rotations(
    lm: Glm4MoeLiteCausalLM,
    other: Glm4MoeLiteCausalLM,
    args: Glm4MoeLiteModelArgs,
    theta: Binary32,
    mask_given: bool,
    given: Seq<Option<SteppingKeyValueCache>>,
)
    requires
        lm.is_layout(args),
        other.is_layout(Glm4MoeLiteModelArgs { rope_theta: theta, ..args }),
        args.num_hidden_layers > 0,
        lm.failure(given) is None,
    ensures
        ({
            let ops = lm.hidden_ops(mask_given, given);
            let others = other.hidden_ops(mask_given, given);
            &&& ops.len() == others.len()
            &&& forall|k: int|
                0 <= k < ops.len() ==> match #[trigger] ops[k] {
                    Op::Rope { width, base, offset } => base == args.rope_theta && others[k]
                        == (Op::Rope { width, base: theta, offset }),
                    op => others[k] == op,
                }
        }),
{
    let n = lm.model.layers@.len();
    let caches = caches_in_use(given, n);
    let (ql, qb) = (args.group_size(), args.weight_bits());
    lemma_stack_rebased(args, theta, caches, n);
    lemma_stack_rebased(args, args.rope_theta, caches, n);
    assert((Glm4MoeLiteModelArgs { rope_theta: args.rope_theta, ..args }) == args);
    let other_args = Glm4MoeLiteModelArgs { rope_theta: theta, ..args };
    lemma_no_module_missing(args, ql, qb, n);
    lemma_no_module_missing(other_args, ql, qb, n);
    let ops = lm.hidden_ops(mask_given, given);
    let others = other.hidden_ops(mask_given, given);
    assert(other.entry_ops(mask_given, given) =~= lm.entry_ops(mask_given, given));
    assert(are_rebased(ops, others, theta));
    assert(are_rebased(ops, ops, args.rope_theta));
    assert forall|k: int| 0 <= k < ops.len() implies match #[trigger] ops[k] {
        Op::Rope { width, base, offset } => base == args.rope_theta && others[k] == (Op::Rope {
            width,
            base: theta,
            offset,
        }),
        op => others[k] == op,
    } by {
        assert(others[k] == rebased(ops[k], theta));
        assert(ops[k] == rebased(ops[k], args.rope_theta));
    }
}

/// A layer is routed if and only if the settings give at least one expert and as
/// many dense layers come ahead of it as the settings say.
pub proof fn law_routed_layers(args: Glm4MoeLiteModelArgs, layer_idx: int)
    ensures
        args.routes(layer_idx) <==> args.n_routed_experts is Some && args.n_routed_experts->0 >= 1
            && layer_idx >= args.first_k_dense_replace,
{
}

/// Settings are refused if and only if a count that has to be positive is not, or
/// a query head is too wide or too narrow for a 16-bit number. The first of these
/// that holds is the reason.
pub proof fn law_settings_are_refused(args: Glm4MoeLiteModelArgs)
    ensures
        ({
            let refusal = Glm4MoeLiteCausalLM::rejection(args);
            let layers = args.num_hidden_layers >= 1;
            let vocabulary = args.vocab_size >= 1;
            let heads = args.num_attention_heads >= 1;
            let width = args.qk_nope_head_dim + args.qk_rope_head_dim;
            &&& refusal is None <==> layers && vocabulary && heads && -32768 <= width <= 32767
            &&& refusal == Some(ModelError::NumHiddenLayersNotPositive) <==> !layers
            &&& refusal == Some(ModelError::VocabSizeNotPositive) <==> layers && !vocabulary
            &&& refusal == Some(ModelError::NumAttentionHeadsNotPositive) <==> layers && vocabulary
                && !heads
            &&& refusal == Some(ModelError::QHeadDimOutOfRange) <==> layers && vocabulary && heads
                && !(-32768 <= width <= 32767)
        }),
{
}

/// An attention lacks a module if and only if one is not there that its kind of
/// query calls for, and says which one comes first.
pub proof fn law_attention_says_what_is_missing(a: Glm4MoeLiteAttention)
    ensures
        a.missing() is None <==> if a.use_compressed_query {
            a.q_a_proj is Some && a.q_a_layernorm is Some && a.q_b_proj is Some
        } else {
            a.q_proj is Some
        },
        a.missing() == Some(Module::QAProj) <==> a.use_compressed_query && a.q_a_proj is None,
        a.missing() == Some(Module::QALayernorm) <==> a.use_compressed_query && a.q_a_proj is Some
            && a.q_a_layernorm is None,
        a.missing() == Some(Module::QBProj) <==> a.use_compressed_query && a.q_a_proj is Some
            && a.q_a_layernorm is Some && a.q_b_proj is None,
        a.missing() == Some(Module::QProj) <==> !a.use_compressed_query && a.q_proj is None,
{
}

/// A feed-forward block lacks a module if and only if one is not there that its
/// kind calls for, and says which one comes first.
pub proof fn law_blocks_say_what_is_missing(b: Glm4MoeLiteMlpBlock)
    ensures
        b.missing() is None <==> if b.is_moe {
            b.gate is Some && b.switch_mlp is Some
        } else {
            b.gate_proj is Some && b.down_proj is Some && b.up_proj is Some
        },
        b.missing() == Some(Module::RouterGate) <==> b.is_moe && b.gate is None,
        b.missing() == Some(Module::SwitchMlp) <==> b.is_moe && b.gate is Some && b.switch_mlp
            is None,
        b.missing() == Some(Module::DenseGateProj) <==> !b.is_moe && b.gate_proj is None,
        b.missing() == Some(Module::DenseDownProj) <==> !b.is_moe && b.gate_proj is Some
            && b.down_proj is None,
        b.missing() == Some(Module::DenseUpProj) <==> !b.is_moe && b.gate_proj is Some
            && b.down_proj is Some && b.up_proj is None,
        b.missing_moe() == (Glm4MoeLiteMlpBlock { is_moe: true, ..b }).missing(),
        b.missing_dense() == (Glm4MoeLiteMlpBlock { is_moe: false, ..b }).missing(),
{
}

proof fn lemma_first_missing(layers: Seq<Glm4MoeLiteDecoderLayer>, n: nat)
    requires
        n <= layers.len(),
    ensures
        match stack_missing(layers, n) {
            None => forall|i: int|
                0 <= i < n ==> (#[trigger] layers[i]).self_attn.missing() is None
                    && layers[i].mlp.missing() is None,
            Some(module) => exists|i: int|
                {
                    &&& 0 <= i < n
                    &&& forall|j: int|
                        0 <= j < i ==> (#[trigger] layers[j]).self_attn.missing() is None
                            && layers[j].mlp.missing() is None
                    &&& match (#[trigger] layers[i]).self_attn.missing() {
                        Some(first) => module == first,
                        None => layers[i].mlp.missing() == Some(module),
                    }
                },
        },
    decreases n,
{
    if n > 0 {
        let k = (n - 1) as nat;
        lemma_first_missing(layers, k);
        if stack_missing(layers, k) is None {
            assert(stack_missing(layers, n) == layers[k as int].missing());
        } else {
            let module = stack_missing(layers, k)->0;
            let i = choose|i: int|
                {
                    &&& 0 <= i < k
                    &&& forall|j: int|
                        0 <= j < i ==> (#[trigger] layers[j]).self_attn.missing() is None
                            && layers[j].mlp.missing() is None
                    &&& match (#[trigger] layers[i]).self_attn.missing() {
                        Some(first) => module == first,
                        None => layers[i].mlp.missing() == Some(module),
                    }
                };
            assert(0 <= i < n);
            assert(layers[i] == layers[i]);
        }
    }
}

/// A pass fails if and only if there are caches but not one entry for each layer,
/// or a layer lacks a module. The number of caches is looked at first; of the
/// layers, the first that lacks a module is named by what it lacks, attention
/// ahead of feed-forward block.
pub proof fn law_passes_say_why_they_fail(
    lm: Glm4MoeLiteCausalLM,
    given: Seq<Option<SteppingKeyValueCache>>,
)
    requires
        given.len() <= usize::MAX,
    ensures
        ({
            let layers = lm.model.layers@;
            let mismatch = given.len() != 0 && given.len() != layers.len();
            match lm.failure(given) {
                Some(ModelError::CacheLengthMismatch { cache, layers: count }) => {
                    &&& mismatch
                    &&& cache == given.len()
                    &&& count == layers.len()
                },
                Some(ModelError::Missing(module)) => {
                    &&& !mismatch
                    &&& exists|i: int|
                        {
                            &&& 0 <= i < layers.len()
                            &&& forall|j: int|
                                0 <= j < i ==> (#[trigger] layers[j]).self_attn.missing() is None
                                    && layers[j].mlp.missing() is None
                            &&& match (#[trigger] layers[i]).self_attn.missing() {
                                Some(first) => module == first,
                                None => layers[i].mlp.missing() == Some(module),
                            }
                        }
                },
                Some(_) => false,
                None => {
                    &&& !mismatch
                    &&& forall|i: int|
                        0 <= i < layers.len() ==> (#[trigger] layers[i]).self_attn.missing() is None
                            && layers[i].mlp.missing() is None
                },
            }
        }),
{
    let layers = lm.model.layers@;
    assert(layers.len() == lm.model.layers.len());
    lemma_first_missing(layers, layers.len());
}

/// The sizes that a pass of a model computes fit their types if and only if there
/// is no routed layer, or the number of experts that a token is not sent to fits.
pub proof fn law_sizes_fit(lm: Glm4MoeLiteCausalLM, args: Glm4MoeLiteModelArgs)
    requires
        lm.is_layout(args),
        Glm4MoeLiteCausalLM::rejection(args) is None,
    ensures
        ({
            let experts = match args.n_routed_experts {
                Some(n) => n as int,
                None => 0,
            };
            let chosen = match args.num_experts_per_tok {
                Some(k) => k as int,
                None => 2,
            };
            let any_routed = experts > 0 && args.first_k_dense_replace < args.num_hidden_layers;
            lm.fits() <==> (any_routed ==> experts - chosen <= 2147483647)
        }),
{
    law_laid_out_models_fit(lm, args);
}

/// What is laid out by itself follows its arguments: an attention and a layer for
/// any quantization, a routed block for any number of experts, shared experts and
/// a dense block for any quantization.
pub proof fn law_parts_follow_their_arguments(
    args: Glm4MoeLiteModelArgs,
    layer_idx: int,
    n_routed: i32,
    ql: i32,
    qb: i32,
)
    requires
        -32768 <= args.qk_nope_head_dim + args.qk_rope_head_dim <= 32767,
    ensures
        ({
            let quantized = QLinear { group_size: ql, bits: qb };
            let a = Glm4MoeLiteAttention::layout(args, ql, qb);
            let l = Glm4MoeLiteDecoderLayer::layout(args, layer_idx, ql, qb);
            let b = Glm4MoeLiteMlpBlock::moe_layout(args, n_routed, ql, qb);
            let d = Glm4MoeLiteMlpBlock::dense_layout(ql, qb);
            let s = SharedExperts::layout(ql, qb);
            &&& a.rope_base == args.rope_theta
            &&& a.head_dim == args.qk_nope_head_dim + args.qk_rope_head_dim
            &&& a.num_heads == args.num_attention_heads
            &&& a.kv_lora_rank == args.kv_lora_rank
            &&& a.qk_nope_head_dim == args.qk_nope_head_dim
            &&& a.qk_rope_head_dim == args.qk_rope_head_dim
            &&& a.v_head_dim == args.v_head_dim
            &&& a.use_compressed_query <==> args.q_lora_rank is Some
            &&& a.missing() is None
            &&& a.q_a_proj matches Some(w) ==> w == quantized
            &&& a.q_b_proj matches Some(w) ==> w == quantized
            &&& a.q_proj matches Some(w) ==> w == quantized
            &&& a.kv_a_proj_with_mqa == quantized && a.kv_b_proj == quantized && a.o_proj
                == quantized
            &&& a.kv_a_layernorm.dims == args.kv_lora_rank
            &&& a.q_a_layernorm matches Some(norm) ==> Some(norm.dims) == args.q_lora_rank
            &&& l.self_attn == a
            &&& l.mlp == if args.n_routed_experts is Some && args.n_routed_experts->0 >= 1
                && layer_idx >= args.first_k_dense_replace {
                Glm4MoeLiteMlpBlock::moe_layout(args, args.n_routed_experts->0, ql, qb)
            } else {
                d
            }
            &&& b.is_moe && b.num_experts == n_routed && b.norm_topk_prob == args.norm_topk_prob
            &&& b.top_k == match args.num_experts_per_tok {
                Some(k) => k as int,
                None => 2,
            }
            &&& args.routed_scaling_factor matches Some(factor) ==> b.scaling_factor == factor
            &&& args.routed_scaling_factor is None ==> !b.scaling_factor.departs_from_one()
            &&& b.gate == Some(
                Linear {
                    input_dims: args.hidden_size,
                    output_dims: n_routed,
                    bias: false,
                },
            )
            &&& b.switch_mlp matches Some(w) && w.group_size == ql && w.bits == qb
            &&& match args.n_shared_experts {
                Some(n) => if n >= 1 {
                    b.shared_experts == Some(s)
                } else {
                    b.shared_experts is None
                },
                None => b.shared_experts is None,
            }
            &&& s.gate_proj == quantized && s.up_proj == quantized && s.down_proj == quantized
            &&& !d.is_moe && d.gate_proj == Some(quantized) && d.up_proj == Some(quantized)
                && d.down_proj == Some(quantized)
        }),
{
    law_neighbours_of_one(Binary32 { bits: ONE_BITS });
}

/// A query head is as wide as its plain and its rotary part together.
pub proof fn law_query_heads_have_two_parts(args: Glm4MoeLiteModelArgs)
    ensures
        args.head_width() - args.qk_nope_head_dim == args.qk_rope_head_dim,
{
}

/// A model without output projection has as many layers as the settings say, or
/// none for a number that is not positive; each is the layer that they call for
/// at its place. Embedding and normalisation go by quantization and settings.
pub proof fn law_inner_models_follow_their_arguments(
    inner: Glm4MoeLiteInner,
    args: Glm4MoeLiteModelArgs,
    ql: i32,
    qb: i32,
    i: int,
)
    requires
        inner.is_layout(args, ql, qb),
    ensures
        inner.layers@.len() == if args.num_hidden_layers >= 1 {
            args.num_hidden_layers as int
        } else {
            0
        },
        0 <= i < args.num_hidden_layers ==> inner.layers@[i] == Glm4MoeLiteDecoderLayer::layout(
            args,
            i,
            ql,
            qb,
        ),
        inner.embed_tokens.group_size == ql,
        inner.embed_tokens.bits == qb,
        inner.norm.dims == args.hidden_size,
        inner.norm.eps == args.rms_norm_eps,
{
}

/// An attention that lacks a module looks at the shape of what it takes, and at
/// nothing else: of the operations of a complete one it records the first, and it
/// leaves its cache alone.
pub proof fn law_incomplete_attention_stops(
    a: Glm4MoeLiteAttention,
    complete: Glm4MoeLiteAttention,
    layer: usize,
    cache: Option<SteppingKeyValueCache>,
    length: int,
)
    requires
        a.missing() is Some,
        complete.missing() is None,
    ensures
        complete.ops(layer, cache)[0] == Op::LeadingDims,
        a.ops(layer, cache) == complete.ops(layer, cache).take(1),
        a.cache_left(cache, length) == cache,
{
    reveal(Glm4MoeLiteAttention::ops);
    assert(complete.ops(layer, cache)[0] == Op::LeadingDims);
    assert(a.ops(layer, cache) =~= complete.ops(layer, cache).take(1));
}

/// A feed-forward block that lacks a module records what a complete one records
/// up to where the module is called for: nothing without a router or a dense
/// projection, and all of the scoring without the experts.
pub proof fn law_incomplete_blocks_stop(
    b: Glm4MoeLiteMlpBlock,
    complete: Glm4MoeLiteMlpBlock,
    layer: usize,
)
    requires
        b.missing() is Some,
        complete.missing() is None,
        ({
            let filled = Glm4MoeLiteMlpBlock {
                gate: complete.gate,
                switch_mlp: complete.switch_mlp,
                gate_proj: complete.gate_proj,
                up_proj: complete.up_proj,
                down_proj: complete.down_proj,
                ..b
            };
            filled == complete
        }),
    ensures
        ({
            let ops = complete.ops(layer);
            if b.is_moe && b.gate is Some {
                exists|k: int|
                    {
                        &&& 0 <= k < ops.len()
                        &&& #[trigger] ops[k] == Op::SwitchMlp(
                            Site::Layer(layer, LayerPart::SwitchMlp),
                        )
                        &&& b.ops(layer) == ops.take(k)
                    }
            } else {
                &&& b.ops(layer).len() == 0
                &&& ops[0] == if b.is_moe {
                    Op::Linear(Site::Layer(layer, LayerPart::RouterGate))
                } else {
                    Op::QLinear(Site::Layer(layer, LayerPart::DenseGateProj))
                }
            }
        }),
{
    reveal(Glm4MoeLiteMlpBlock::ops);
    let ops = complete.ops(layer);
    if b.is_moe && b.gate is Some {
        let k = b.scoring_ops(layer).len() as int;
        assert(ops[k] == Op::SwitchMlp(Site::Layer(layer, LayerPart::SwitchMlp)));
        assert(b.ops(layer) =~= ops.take(k));
    }
}

/// A layer that lacks a module records what a complete one records, up to where
/// its attention or its feed-forward block stops.
pub proof fn law_incomplete_layers_stop(
    l: Glm4MoeLiteDecoderLayer,
    layer: usize,
    cache: Option<SteppingKeyValueCache>,
)
    requires
        l.missing() is Some,
    ensures
        ({
            let ops = l.ops(layer, cache);
            let attention = l.self_attn.ops(layer, cache);
            let block = l.mlp.ops(layer);
            let start = (1 + attention.len()) as int;
            &&& ops[0] == Op::RmsNorm(Site::Layer(layer, LayerPart::InputLayernorm))
            &&& ops.subrange(1, start) == attention
            &&& l.self_attn.missing() is Some ==> ops.len() == start
            &&& l.self_attn.missing() is None ==> {
                &&& ops.len() == start + 2 + block.len()
                &&& ops[start] == Op::Add
                &&& ops[start + 1] == Op::RmsNorm(
                    Site::Layer(layer, LayerPart::PostAttentionLayernorm),
                )
                &&& ops.skip(start + 2) == block
            }
        }),
{
    reveal(Glm4MoeLiteDecoderLayer::ops);
    let ops = l.ops(layer, cache);
    let attention = l.self_attn.ops(layer, cache);
    let start = (1 + attention.len()) as int;
    assert(ops.subrange(1, start) =~= attention);
    if l.self_attn.missing() is None {
        assert(ops.skip(start + 2) =~= l.mlp.ops(layer));
    }
}

} // verus!
