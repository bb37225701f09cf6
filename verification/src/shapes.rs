//! The shapes of recorded results, and what they say about the model: a forward
//! pass over weights that fit the settings keeps the hidden states in shape.
use vstd::arithmetic::div_mod::{lemma_fundamental_div_mod, lemma_fundamental_div_mod_converse};
use vstd::prelude::*;

use crate::attention::{feature_slice, head_slice, leading, to_heads, Glm4MoeLiteAttention};
use crate::cache::{has_room, start_of, SteppingKeyValueCache};
use crate::decoder::Glm4MoeLiteDecoderLayer;
use crate::mlp::{gated, Glm4MoeLiteMlpBlock, SharedExperts};
use crate::model::{caches_in_use, stack_output, Glm4MoeLiteCausalLM};
use crate::tape::{apply0, apply1, apply2, apply4, LayerPart, Op, Site, Span, Tensor};

verus! {

/// The sizes that a forward pass meets: of the token ids and of the weights.
pub struct Sizes {
    pub batch: int,
    pub length: int,
    pub hidden: int,
    pub vocab: int,
    /// The number of features that a weighted operation takes.
    pub fan_in: spec_fn(Site) -> int,
    /// The number of features that a weighted operation gives.
    pub fan_out: spec_fn(Site) -> int,
}

/// There are token ids.
pub open spec fn has_tokens(s: Sizes) -> bool {
    s.batch > 0 && s.length > 0
}

/// A shape with another last size.
pub open spec fn with_last(shape: Seq<int>, size: int) -> Seq<int> {
    shape.update(shape.len() - 1, size)
}

/// The size that is left of a size by a range of indices within it.
pub open spec fn span_size(size: int, span: Span) -> Option<int> {
    match span {
        Span::To(end) => if 0 <= end <= size {
            Some(end as int)
        } else {
            None
        },
        Span::From(start) => if 0 <= start <= size {
            Some(size - start)
        } else if -size <= start < 0 {
            Some(-start as int)
        } else {
            None
        },
    }
}

/// The second shape can be stretched to the first.
pub open spec fn stretches_to(a: Seq<int>, b: Seq<int>) -> bool {
    b.len() == 0 || (b.len() == a.len() && forall|i: int|
        0 <= i < a.len() ==> #[trigger] b[i] == a[i] || b[i] == 1)
}

/// No size is 0. A size can be inferred only in a reshape of something that has
/// elements.
pub open spec fn has_elements(shape: Seq<int>) -> bool {
    forall|i: int| 0 <= i < shape.len() ==> #[trigger] shape[i] != 0
}

/// The shape of an operation on one operand.
pub open spec fn shape1(op: Op, a: Seq<int>, s: Sizes) -> Option<Seq<int>> {
    match op {
        Op::Embed => Some(a.push(s.hidden)),
        Op::EmbedAsLinear => if a.len() > 0 && a.last() == s.hidden {
            Some(with_last(a, s.vocab))
        } else {
            None
        },
        Op::LeadingDims => if a.len() >= 2 {
            Some(seq![a[0], a[1]])
        } else {
            None
        },
        Op::QLinear(site) | Op::Linear(site) => if a.len() > 0 && a.last() == (s.fan_in)(site) {
            Some(with_last(a, (s.fan_out)(site)))
        } else {
            None
        },
        Op::RmsNorm(site) => if a.len() > 0 && a.last() == (s.fan_in)(site) {
            Some(a)
        } else {
            None
        },
        Op::SwapHeads => if a.len() == 4 {
            Some(seq![a[0], a[2], a[1], a[3]])
        } else {
            None
        },
        Op::Slice { rank, axis, span } => if a.len() == rank && axis < rank {
            match span_size(a[axis as int], span) {
                Some(size) => Some(a.update(axis as int, size)),
                None => None,
            }
        } else {
            None
        },
        Op::Rope { width, base, offset } => if a.len() > 0 && 0 <= width <= a.last() {
            Some(a)
        } else {
            None
        },
        Op::Softmax => if a.len() > 0 {
            Some(a)
        } else {
            None
        },
        Op::ArgPartition { kth } => if a.len() > 0 && -a.last() <= kth < a.last() {
            Some(a)
        } else {
            None
        },
        Op::SumLast => if a.len() > 0 {
            Some(with_last(a, 1))
        } else {
            None
        },
        Op::SumExperts => if a.len() >= 2 {
            Some(a.take(a.len() - 2).push(a.last()))
        } else {
            None
        },
        Op::ScalarLike { value } => Some(seq![]),
        Op::ExpandLast => Some(a.push(1)),
        _ => None,
    }
}

/// The shape of an operation on two operands.
pub open spec fn shape2(op: Op, a: Seq<int>, b: Seq<int>, s: Sizes) -> Option<Seq<int>> {
    match op {
        Op::SwitchMlp(site) => if a.len() == 3 && b.len() == 3 && a[0] == b[0] && a[1] == b[1]
            && a[2] == (s.fan_in)(site) {
            Some(b.push((s.fan_out)(site)))
        } else {
            None
        },
        Op::Swiglu | Op::Add => if a == b {
            Some(a)
        } else {
            None
        },
        Op::SplitHeads { heads, width } => if a.len() == 3 && b == seq![a[0], a[1]] {
            if width == -1 {
                if heads > 0 && a[2] % (heads as int) == 0 && has_elements(a) {
                    Some(seq![a[0], a[1], heads as int, a[2] / (heads as int)])
                } else {
                    None
                }
            } else if a[2] == heads * width {
                Some(seq![a[0], a[1], heads as int, width as int])
            } else {
                None
            }
        } else {
            None
        },
        Op::MergeHeads => if a.len() == 4 && b == seq![a[0], a[1]] && has_elements(a) {
            Some(seq![a[0], a[1], a[2] * a[3]])
        } else {
            None
        },
        Op::BroadcastHeads { heads, width } => if b.len() == 2 {
            let target = seq![b[0], heads as int, b[1], width as int];
            if a.len() == 4 && stretches_to(target, a) {
                Some(target)
            } else {
                None
            }
        } else {
            None
        },
        Op::Concat => if a.len() > 0 && a.len() == b.len() && a.drop_last() == b.drop_last() {
            Some(with_last(a, a.last() + b.last()))
        } else {
            None
        },
        Op::TakeAlong => if a.len() > 0 && a.len() == b.len() && a.drop_last() == b.drop_last() {
            Some(b)
        } else {
            None
        },
        Op::Multiply | Op::Divide => if stretches_to(a, b) {
            Some(a)
        } else {
            None
        },
        _ => None,
    }
}

/// The shape of attention over queries, keys and values.
pub open spec fn attend_shape(q: Seq<int>, k: Seq<int>, v: Seq<int>) -> Option<Seq<int>> {
    if q.len() == 4 && k.len() == 4 && v.len() == 4 && q[0] == k[0] && k[0] == v[0] && q[1] == k[1]
        && k[1] == v[1] && k[2] == v[2] && q[3] == k[3] {
        Some(seq![q[0], q[1], q[2], v[3]])
    } else {
        None
    }
}

/// The shape of what a cache gives back for what it was handed, behind what it
/// held already.
pub open spec fn fetched_shape(a: Seq<int>, past: int) -> Option<Seq<int>> {
    if a.len() == 4 {
        Some(a.update(2, past + a[2]))
    } else {
        None
    }
}

/// The shape of a recorded result, where its operands fit together.
#[verifier::opaque]
pub open spec fn shape(t: Tensor, s: Sizes) -> Option<Seq<int>>
    decreases t,
{
    match t.op {
        Op::Inputs => Some(seq![s.batch, s.length]),
        Op::Attend { head_dim } => if t.args.len() == 4 {
            match (shape(t.args[0], s), shape(t.args[1], s), shape(t.args[2], s)) {
                (Some(q), Some(k), Some(v)) => attend_shape(q, k, v),
                _ => None,
            }
        } else {
            None
        },
        Op::FetchedKeys | Op::FetchedValues => if t.args.len() == 1 && t.args[0].args.len() == 2 {
            match t.args[0].op {
                Op::CacheUpdate { layer, offset } => {
                    let handed = if t.op == Op::FetchedKeys {
                        shape(t.args[0].args[0], s)
                    } else {
                        shape(t.args[0].args[1], s)
                    };
                    match handed {
                        Some(a) => fetched_shape(a, offset as int),
                        None => None,
                    }
                },
                _ => None,
            }
        } else {
            None
        },
        _ => if t.args.len() == 1 {
            match shape(t.args[0], s) {
                Some(a) => shape1(t.op, a, s),
                None => None,
            }
        } else if t.args.len() == 2 {
            match (shape(t.args[0], s), shape(t.args[1], s)) {
                (Some(a), Some(b)) => shape2(t.op, a, b, s),
                _ => None,
            }
        } else {
            None
        },
    }
}

/// The operations whose shape follows from the shapes of all their operands.
pub open spec fn is_plain(op: Op) -> bool {
    op != Op::Inputs && !(op is Attend) && op != Op::FetchedKeys && op != Op::FetchedValues
}

proof fn lemma_shape1(op: Op, t: Tensor, a: Seq<int>, s: Sizes)
    requires
        is_plain(op),
        shape(t, s) == Some(a),
    ensures
        shape(apply1(op, t), s) == shape1(op, a, s),
{
    reveal(shape);
    assert(apply1(op, t).args[0] == t);
}

proof fn lemma_shape2(op: Op, t: Tensor, u: Tensor, a: Seq<int>, b: Seq<int>, s: Sizes)
    requires
        is_plain(op),
        shape(t, s) == Some(a),
        shape(u, s) == Some(b),
    ensures
        shape(apply2(op, t, u), s) == shape2(op, a, b, s),
{
    reveal(shape);
    assert(apply2(op, t, u).args[0] == t);
    assert(apply2(op, t, u).args[1] == u);
}

/// The shape of hidden states.
pub open spec fn hidden_shape(s: Sizes) -> Seq<int> {
    seq![s.batch, s.length, s.hidden]
}

/// The shape of something by head, over the positions of this pass.
pub open spec fn head_shape(s: Sizes, heads: int, width: int) -> Seq<int> {
    seq![s.batch, heads, s.length, width]
}

/// The width of the values of a head: what the projected keys and values leave
/// behind the plain part of the keys.
pub open spec fn value_width(a: Glm4MoeLiteAttention, layer: usize, s: Sizes) -> int {
    (s.fan_out)(Site::Layer(layer, LayerPart::KvBProj)) / (a.num_heads as int) - a.qk_nope_head_dim
}

/// The weights of an attention fit its settings and the hidden states.
pub open spec fn attention_matches(a: Glm4MoeLiteAttention, layer: usize, s: Sizes) -> bool {
    let fan_in = |part: LayerPart| (s.fan_in)(Site::Layer(layer, part));
    let fan_out = |part: LayerPart| (s.fan_out)(Site::Layer(layer, part));
    let width = a.qk_nope_head_dim + a.qk_rope_head_dim;
    &&& a.num_heads > 0
    &&& a.qk_nope_head_dim >= 0
    &&& a.qk_rope_head_dim >= 0
    &&& a.kv_lora_rank >= 0
    &&& value_width(a, layer, s) > 0
    &&& width <= i32::MAX
    &&& if a.use_compressed_query {
        &&& fan_in(LayerPart::QAProj) == s.hidden
        &&& fan_in(LayerPart::QALayernorm) == fan_out(LayerPart::QAProj)
        &&& fan_in(LayerPart::QBProj) == fan_out(LayerPart::QAProj)
        &&& fan_out(LayerPart::QBProj) == a.num_heads * width
    } else {
        &&& fan_in(LayerPart::QProj) == s.hidden
        &&& fan_out(LayerPart::QProj) == a.num_heads * width
    }
    &&& fan_in(LayerPart::KvAProjWithMqa) == s.hidden
    &&& fan_out(LayerPart::KvAProjWithMqa) == a.kv_lora_rank + a.qk_rope_head_dim
    &&& fan_in(LayerPart::KvALayernorm) == a.kv_lora_rank
    &&& fan_in(LayerPart::KvBProj) == a.kv_lora_rank
    &&& fan_out(LayerPart::KvBProj) % (a.num_heads as int) == 0
    &&& fan_in(LayerPart::OProj) == a.num_heads * value_width(a, layer, s)
}

/// Features cut into heads of a given width.
proof fn lemma_to_heads(
    t: Tensor,
    like: Tensor,
    heads: i32,
    width: i32,
    last: int,
    features: int,
    s: Sizes,
)
    requires
        shape(t, s) == Some(seq![s.batch, s.length, features]),
        shape(like, s) == Some(seq![s.batch, s.length, last]),
        width != -1,
        features == heads * width,
    ensures
        shape(to_heads(t, like, heads, width), s) == Some(head_shape(s, heads as int, width as int)),
{
    let dims = seq![s.batch, s.length];
    lemma_shape1(Op::LeadingDims, like, seq![s.batch, s.length, last], s);
    let op = Op::SplitHeads { heads, width };
    lemma_shape2(op, t, leading(like), seq![s.batch, s.length, features], dims, s);
    let split = seq![s.batch, s.length, heads as int, width as int];
    lemma_shape1(Op::SwapHeads, apply2(op, t, leading(like)), split, s);
}

/// Features cut into heads of an inferred width.
proof fn lemma_to_heads_inferred(
    t: Tensor,
    like: Tensor,
    heads: i32,
    width: int,
    last: int,
    features: int,
    s: Sizes,
)
    requires
        shape(t, s) == Some(seq![s.batch, s.length, features]),
        shape(like, s) == Some(seq![s.batch, s.length, last]),
        heads > 0,
        features == heads * width,
        features != 0,
        has_tokens(s),
    ensures
        shape(to_heads(t, like, heads, (-1) as i32), s) == Some(
            head_shape(s, heads as int, width),
        ),
{
    let dims = seq![s.batch, s.length];
    lemma_shape1(Op::LeadingDims, like, seq![s.batch, s.length, last], s);
    let op = Op::SplitHeads { heads, width: (-1) as i32 };
    lemma_shape2(op, t, leading(like), seq![s.batch, s.length, features], dims, s);
    assert(features % (heads as int) == 0 && features / (heads as int) == width) by {
        assert(heads * width == width * heads) by (nonlinear_arith);
        lemma_fundamental_div_mod_converse(features, heads as int, width, 0);
    }
    let split = seq![s.batch, s.length, heads as int, width];
    lemma_shape1(Op::SwapHeads, apply2(op, t, leading(like)), split, s);
}

/// A part of the features of the heads.
proof fn lemma_head_slice(t: Tensor, heads: int, width: int, at: i32, s: Sizes)
    requires
        shape(t, s) == Some(head_shape(s, heads, width)),
        0 <= at <= width,
    ensures
        shape(head_slice(t, Span::To(at)), s) == Some(head_shape(s, heads, at as int)),
        shape(head_slice(t, Span::From(at)), s) == Some(head_shape(s, heads, width - at)),
{
    let a = head_shape(s, heads, width);
    lemma_shape1(Op::Slice { rank: 4, axis: 3, span: Span::To(at) }, t, a, s);
    lemma_shape1(Op::Slice { rank: 4, axis: 3, span: Span::From(at) }, t, a, s);
    assert(a.update(3, at as int) =~= head_shape(s, heads, at as int));
    assert(a.update(3, width - at) =~= head_shape(s, heads, width - at));
}

/// The queries have one entry for each head and position of the pass, as wide
/// as a plain and a rotary part.
pub proof fn law_queries_shape(
    a: Glm4MoeLiteAttention,
    layer: usize,
    x: Tensor,
    cache: Option<SteppingKeyValueCache>,
    s: Sizes,
)
    requires
        attention_matches(a, layer, s),
        shape(x, s) == Some(hidden_shape(s)),
    ensures
        shape(a.queries(layer, x, cache), s) == Some(
            head_shape(s, a.num_heads as int, a.qk_nope_head_dim + a.qk_rope_head_dim),
        ),
{
    let xs = hidden_shape(s);
    let heads = a.num_heads as int;
    let nope = a.qk_nope_head_dim;
    let width = a.qk_nope_head_dim + a.qk_rope_head_dim;
    let flat = seq![s.batch, s.length, heads * width];
    assert(shape(a.projected_query(layer, x), s) == Some(flat)) by {
        if a.use_compressed_query {
            let op_a = Op::QLinear(Site::Layer(layer, LayerPart::QAProj));
            let op_n = Op::RmsNorm(Site::Layer(layer, LayerPart::QALayernorm));
            let op_b = Op::QLinear(Site::Layer(layer, LayerPart::QBProj));
            let rank = (s.fan_out)(Site::Layer(layer, LayerPart::QAProj));
            let latent = seq![s.batch, s.length, rank];
            lemma_shape1(op_a, x, xs, s);
            assert(with_last(xs, rank) =~= latent);
            lemma_shape1(op_n, apply1(op_a, x), latent, s);
            lemma_shape1(op_b, apply1(op_n, apply1(op_a, x)), latent, s);
            assert(with_last(latent, heads * width) =~= flat);
        } else {
            lemma_shape1(Op::QLinear(Site::Layer(layer, LayerPart::QProj)), x, xs, s);
            assert(with_last(xs, heads * width) =~= flat);
        }
    }
    let q = a.head_queries(layer, x);
    lemma_to_heads(
        a.projected_query(layer, x),
        x,
        a.num_heads,
        width as i32,
        s.hidden,
        heads * width,
        s,
    );
    lemma_head_slice(q, heads, width, nope, s);
    let pe = head_shape(s, heads, a.qk_rope_head_dim as int);
    let raw = head_slice(q, Span::From(nope));
    let rope = Op::Rope {
        width: a.qk_rope_head_dim,
        base: a.rope_base,
        offset: crate::cache::start_of(cache),
    };
    lemma_shape1(rope, raw, pe, s);
    let plain = head_shape(s, heads, nope as int);
    lemma_shape2(Op::Concat, head_slice(q, Span::To(nope)), a.rotated(raw, cache), plain, pe, s);
    assert(plain.drop_last() =~= pe.drop_last());
    assert(with_last(plain, width) =~= head_shape(s, heads, width));
}

/// The keys and values of a pass have one entry for each head and position of
/// the pass. The keys are as wide as the queries.
pub proof fn law_new_keys_and_values_shape(
    a: Glm4MoeLiteAttention,
    layer: usize,
    x: Tensor,
    cache: Option<SteppingKeyValueCache>,
    s: Sizes,
)
    requires
        attention_matches(a, layer, s),
        has_tokens(s),
        shape(x, s) == Some(hidden_shape(s)),
    ensures
        shape(a.new_keys(layer, x, cache), s) == Some(
            head_shape(s, a.num_heads as int, a.qk_nope_head_dim + a.qk_rope_head_dim),
        ),
        shape(a.new_values(layer, x), s) == Some(
            head_shape(s, a.num_heads as int, value_width(a, layer, s)),
        ),
{
    let xs = hidden_shape(s);
    let heads = a.num_heads as int;
    let nope = a.qk_nope_head_dim;
    let rope = a.qk_rope_head_dim;
    let rank = a.kv_lora_rank;
    let width = nope + rope;

    // The compressed keys and values, and their two parts.
    let compressed = a.compressed_kv(layer, x);
    let cs = seq![s.batch, s.length, rank + rope];
    lemma_shape1(Op::QLinear(Site::Layer(layer, LayerPart::KvAProjWithMqa)), x, xs, s);
    assert(with_last(xs, rank + rope) =~= cs);
    let latent = feature_slice(compressed, Span::To(rank));
    let latent_shape = seq![s.batch, s.length, rank as int];
    lemma_shape1(Op::Slice { rank: 3, axis: 2, span: Span::To(rank) }, compressed, cs, s);
    assert(cs.update(2, rank as int) =~= latent_shape);
    let flat_pe = feature_slice(compressed, Span::From(rank));
    let flat_pe_shape = seq![s.batch, s.length, rope as int];
    lemma_shape1(Op::Slice { rank: 3, axis: 2, span: Span::From(rank) }, compressed, cs, s);
    assert(cs.update(2, rope as int) =~= flat_pe_shape);

    // The shared rotary key, at its position and for all heads.
    lemma_to_heads(flat_pe, x, 1, rope, s.hidden, rope as int, s);
    let key_pe = a.shared_key(layer, x);
    let key_pe_shape = head_shape(s, 1, rope as int);
    let rope_op = Op::Rope {
        width: rope,
        base: a.rope_base,
        offset: crate::cache::start_of(cache),
    };
    lemma_shape1(rope_op, key_pe, key_pe_shape, s);
    let dims = seq![s.batch, s.length];
    lemma_shape1(Op::LeadingDims, x, xs, s);
    let broadcast_op = Op::BroadcastHeads { heads: a.num_heads, width: rope };
    let rotated = a.rotated(key_pe, cache);
    lemma_shape2(broadcast_op, rotated, leading(x), key_pe_shape, dims, s);
    let pe_shape = head_shape(s, heads, rope as int);
    let pe = apply2(broadcast_op, rotated, leading(x));
    assert(stretches_to(pe_shape, key_pe_shape));
    assert(seq![dims[0], heads, dims[1], rope as int] =~= pe_shape);
    assert(shape(pe, s) == Some(pe_shape));

    // The plain keys and the values.
    let norm_op = Op::RmsNorm(Site::Layer(layer, LayerPart::KvALayernorm));
    let b_op = Op::QLinear(Site::Layer(layer, LayerPart::KvBProj));
    let v = value_width(a, layer, s);
    let features = (s.fan_out)(Site::Layer(layer, LayerPart::KvBProj));
    assert(features == heads * (nope + v)) by {
        lemma_fundamental_div_mod(features, heads);
    }
    assert(features != 0) by (nonlinear_arith)
        requires
            features == heads * (nope + v),
            heads > 0,
            nope + v > 0,
    ;
    let flat_shape = seq![s.batch, s.length, features];
    lemma_shape1(norm_op, latent, latent_shape, s);
    lemma_shape1(b_op, apply1(norm_op, latent), latent_shape, s);
    assert(with_last(latent_shape, features) =~= flat_shape);
    let flat = apply1(b_op, apply1(norm_op, latent));
    lemma_to_heads_inferred(flat, x, a.num_heads, nope + v, s.hidden, features, s);
    let kv = a.head_kv(layer, x);
    lemma_head_slice(kv, heads, nope + v, nope, s);

    let plain_shape = head_shape(s, heads, nope as int);
    lemma_shape2(Op::Concat, head_slice(kv, Span::To(nope)), pe, plain_shape, pe_shape, s);
    assert(plain_shape.drop_last() =~= pe_shape.drop_last());
    assert(with_last(plain_shape, width) =~= head_shape(s, heads, width));
}

/// The keys and values that are attended to have one entry for each head and
/// position: those that the cache holds, as many as its offset says, ahead of
/// those of the pass. The keys are as wide as the queries. The cache is left
/// behind all of these positions.
pub proof fn law_keys_and_values_shape(
    a: Glm4MoeLiteAttention,
    layer: usize,
    x: Tensor,
    cache: Option<SteppingKeyValueCache>,
    s: Sizes,
)
    requires
        attention_matches(a, layer, s),
        has_tokens(s),
        shape(x, s) == Some(hidden_shape(s)),
    ensures
        shape(a.keys(layer, x, cache), s) == Some(
            seq![
                s.batch,
                a.num_heads as int,
                start_of(cache) + s.length,
                a.qk_nope_head_dim + a.qk_rope_head_dim,
            ],
        ),
        shape(a.values(layer, x, cache), s) == Some(
            seq![
                s.batch,
                a.num_heads as int,
                start_of(cache) + s.length,
                value_width(a, layer, s),
            ],
        ),
        cache is Some && has_room(cache, s.length) && a.missing() is None ==> start_of(
            a.cache_left(cache, s.length),
        ) == start_of(cache) + s.length,
{
    law_new_keys_and_values_shape(a, layer, x, cache, s);
    reveal(shape);
    let heads = a.num_heads as int;
    let width = a.qk_nope_head_dim + a.qk_rope_head_dim;
    let v = value_width(a, layer, s);
    let positions = start_of(cache) + s.length;
    if cache is Some {
        let update = a.cache_update(layer, x, cache);
        assert(update.args[0] == a.new_keys(layer, x, cache));
        assert(update.args[1] == a.new_values(layer, x));
        assert(a.keys(layer, x, cache).args[0] == update);
        assert(a.values(layer, x, cache).args[0] == update);
    }
    assert(head_shape(s, heads, width).update(2, positions) =~= seq![
        s.batch,
        heads,
        positions,
        width,
    ]);
    assert(head_shape(s, heads, v).update(2, positions) =~= seq![s.batch, heads, positions, v]);
}

/// Attention over weights that fit gives one entry for each token id, as wide as
/// the output projection makes it.
pub proof fn law_attention_shape(
    a: Glm4MoeLiteAttention,
    layer: usize,
    x: Tensor,
    mask: Tensor,
    cache: Option<SteppingKeyValueCache>,
    s: Sizes,
)
    requires
        attention_matches(a, layer, s),
        has_tokens(s),
        shape(x, s) == Some(hidden_shape(s)),
    ensures
        shape(a.output(layer, x, mask, cache), s) == Some(
            seq![
                s.batch,
                s.length,
                (s.fan_out)(Site::Layer(layer, LayerPart::OProj)),
            ],
        ),
{
    reveal(Glm4MoeLiteAttention::output);
    law_queries_shape(a, layer, x, cache, s);
    law_keys_and_values_shape(a, layer, x, cache, s);
    let heads = a.num_heads as int;
    let v = value_width(a, layer, s);
    let width = (s.fan_out)(Site::Layer(layer, LayerPart::OProj));
    let attended = apply4(
        Op::Attend { head_dim: a.head_dim },
        a.queries(layer, x, cache),
        a.keys(layer, x, cache),
        a.values(layer, x, cache),
        mask,
    );
    let attended_shape = head_shape(s, heads, v);
    assert(shape(attended, s) == Some(attended_shape)) by {
        reveal(shape);
        assert(attended.args[0] == a.queries(layer, x, cache));
        assert(attended.args[1] == a.keys(layer, x, cache));
        assert(attended.args[2] == a.values(layer, x, cache));
    }
    let swapped = apply1(Op::SwapHeads, attended);
    let swapped_shape = seq![s.batch, s.length, heads, v];
    lemma_shape1(Op::SwapHeads, attended, attended_shape, s);
    let dims = seq![s.batch, s.length];
    lemma_shape1(Op::LeadingDims, x, hidden_shape(s), s);
    let merged_shape = seq![s.batch, s.length, heads * v];
    lemma_shape2(Op::MergeHeads, swapped, leading(x), swapped_shape, dims, s);
    let o_op = Op::QLinear(Site::Layer(layer, LayerPart::OProj));
    lemma_shape1(o_op, apply2(Op::MergeHeads, swapped, leading(x)), merged_shape, s);
    assert(with_last(merged_shape, width) =~= seq![s.batch, s.length, width]);
}

/// The weights of a gated feed-forward pass fit each other and the hidden
/// states.
pub open spec fn gated_matches(
    layer: usize,
    gate: LayerPart,
    up: LayerPart,
    down: LayerPart,
    s: Sizes,
) -> bool {
    let fan_in = |part: LayerPart| (s.fan_in)(Site::Layer(layer, part));
    let fan_out = |part: LayerPart| (s.fan_out)(Site::Layer(layer, part));
    &&& fan_in(gate) == s.hidden
    &&& fan_in(up) == s.hidden
    &&& fan_out(gate) == fan_out(up)
    &&& fan_in(down) == fan_out(gate)
    &&& fan_out(down) == s.hidden
}

/// The weights of a feed-forward block fit its settings and the hidden states.
pub open spec fn mlp_matches(m: Glm4MoeLiteMlpBlock, layer: usize, s: Sizes) -> bool {
    if m.is_moe {
        &&& 0 <= m.top_k <= m.num_experts
        &&& m.num_experts > 0
        &&& (s.fan_in)(Site::Layer(layer, LayerPart::RouterGate)) == s.hidden
        &&& (s.fan_out)(Site::Layer(layer, LayerPart::RouterGate)) == m.num_experts
        &&& (s.fan_in)(Site::Layer(layer, LayerPart::SwitchMlp)) == s.hidden
        &&& (s.fan_out)(Site::Layer(layer, LayerPart::SwitchMlp)) == s.hidden
        &&& m.shared_experts is Some ==> gated_matches(
            layer,
            LayerPart::SharedGateProj,
            LayerPart::SharedUpProj,
            LayerPart::SharedDownProj,
            s,
        )
    } else {
        gated_matches(
            layer,
            LayerPart::DenseGateProj,
            LayerPart::DenseUpProj,
            LayerPart::DenseDownProj,
            s,
        )
    }
}

proof fn lemma_gated_keeps_shape(
    layer: usize,
    x: Tensor,
    gate: LayerPart,
    up: LayerPart,
    down: LayerPart,
    s: Sizes,
)
    requires
        gated_matches(layer, gate, up, down, s),
        shape(x, s) == Some(hidden_shape(s)),
    ensures
        shape(
            gated(
                x,
                Op::QLinear(Site::Layer(layer, gate)),
                Op::QLinear(Site::Layer(layer, up)),
                Op::QLinear(Site::Layer(layer, down)),
            ),
            s,
        ) == Some(hidden_shape(s)),
{
    let xs = hidden_shape(s);
    let g = Op::QLinear(Site::Layer(layer, gate));
    let u = Op::QLinear(Site::Layer(layer, up));
    let d = Op::QLinear(Site::Layer(layer, down));
    let inner = with_last(xs, (s.fan_out)(Site::Layer(layer, gate)));
    lemma_shape1(g, x, xs, s);
    lemma_shape1(u, x, xs, s);
    lemma_shape2(Op::Swiglu, apply1(g, x), apply1(u, x), inner, inner, s);
    lemma_shape1(d, apply2(Op::Swiglu, apply1(g, x), apply1(u, x)), inner, s);
    assert(with_last(inner, s.hidden) =~= xs);
}

/// A token is routed to `top_k` experts, each with one score.
pub proof fn law_scores_shape(m: Glm4MoeLiteMlpBlock, layer: usize, x: Tensor, s: Sizes)
    requires
        m.is_moe,
        mlp_matches(m, layer, s),
        shape(x, s) == Some(hidden_shape(s)),
    ensures
        shape(m.experts(layer, x), s) == Some(seq![s.batch, s.length, m.top_k as int]),
        shape(m.scaled_scores(layer, x), s) == Some(seq![s.batch, s.length, m.top_k as int]),
{
    let xs = hidden_shape(s);
    let n = m.num_experts as int;
    let k = m.top_k as int;
    let all = seq![s.batch, s.length, n];
    let chosen = seq![s.batch, s.length, k];
    let gate_op = Op::Linear(Site::Layer(layer, LayerPart::RouterGate));
    lemma_shape1(gate_op, x, xs, s);
    assert(with_last(xs, n) =~= all);
    lemma_shape1(Op::Softmax, apply1(gate_op, x), all, s);
    let gates = Glm4MoeLiteMlpBlock::gates(layer, x);
    let partition_op = Op::ArgPartition { kth: (-m.top_k) as i32 };
    lemma_shape1(partition_op, gates, all, s);
    let start = (m.num_experts - m.top_k) as i32;
    let slice_op = Op::Slice { rank: 3, axis: 2, span: Span::From(start) };
    lemma_shape1(slice_op, apply1(partition_op, gates), all, s);
    assert(all.update(2, k) =~= chosen);

    let raw = m.raw_scores(layer, x);
    lemma_shape2(Op::TakeAlong, gates, m.experts(layer, x), all, chosen, s);
    assert(all.drop_last() =~= chosen.drop_last());
    let normalised = m.normalised_scores(layer, x);
    assert(shape(normalised, s) == Some(chosen)) by {
        if m.norm_topk_prob {
            lemma_shape1(Op::SumLast, raw, chosen, s);
            let sums = with_last(chosen, 1);
            lemma_shape2(Op::Divide, raw, apply1(Op::SumLast, raw), chosen, sums, s);
            assert(stretches_to(chosen, sums));
        }
    }
    if m.scaling_factor.departs_from_one() {
        let scalar_op = Op::ScalarLike { value: m.scaling_factor };
        lemma_shape1(scalar_op, normalised, chosen, s);
        lemma_shape2(
            Op::Multiply,
            normalised,
            apply1(scalar_op, normalised),
            chosen,
            Seq::<int>::empty(),
            s,
        );
    }
}

/// A feed-forward block over weights that fit keeps the shape of the hidden
/// states.
pub proof fn law_mlp_keeps_shape(m: Glm4MoeLiteMlpBlock, layer: usize, x: Tensor, s: Sizes)
    requires
        mlp_matches(m, layer, s),
        shape(x, s) == Some(hidden_shape(s)),
    ensures
        shape(m.output(layer, x), s) == Some(hidden_shape(s)),
{
    reveal(Glm4MoeLiteMlpBlock::output);
    let xs = hidden_shape(s);
    if m.is_moe {
        law_scores_shape(m, layer, x, s);
        let k = m.top_k as int;
        let chosen = seq![s.batch, s.length, k];
        let outcomes = seq![s.batch, s.length, k, s.hidden];
        let weights = seq![s.batch, s.length, k, 1];
        let switch_op = Op::SwitchMlp(Site::Layer(layer, LayerPart::SwitchMlp));
        let y = apply2(switch_op, x, m.experts(layer, x));
        lemma_shape2(switch_op, x, m.experts(layer, x), xs, chosen, s);
        assert(chosen.push(s.hidden) =~= outcomes);
        let w = apply1(Op::ExpandLast, m.scaled_scores(layer, x));
        lemma_shape1(Op::ExpandLast, m.scaled_scores(layer, x), chosen, s);
        assert(chosen.push(1) =~= weights);
        lemma_shape2(Op::Multiply, y, w, outcomes, weights, s);
        assert(stretches_to(outcomes, weights));
        lemma_shape1(Op::SumExperts, apply2(Op::Multiply, y, w), outcomes, s);
        assert(outcomes.take(2).push(s.hidden) =~= xs);
        let routed = m.routed_output(layer, x);
        assert(shape(routed, s) == Some(xs));
        if m.shared_experts is Some {
            lemma_gated_keeps_shape(
                layer,
                x,
                LayerPart::SharedGateProj,
                LayerPart::SharedUpProj,
                LayerPart::SharedDownProj,
                s,
            );
            lemma_shape2(Op::Add, routed, SharedExperts::output(layer, x), xs, xs, s);
        }
    } else {
        lemma_gated_keeps_shape(
            layer,
            x,
            LayerPart::DenseGateProj,
            LayerPart::DenseUpProj,
            LayerPart::DenseDownProj,
            s,
        );
    }
}

/// The weights of a layer fit its settings and the hidden states.
pub open spec fn layer_matches(l: Glm4MoeLiteDecoderLayer, layer: usize, s: Sizes) -> bool {
    &&& attention_matches(l.self_attn, layer, s)
    &&& (s.fan_out)(Site::Layer(layer, LayerPart::OProj)) == s.hidden
    &&& mlp_matches(l.mlp, layer, s)
    &&& (s.fan_in)(Site::Layer(layer, LayerPart::InputLayernorm)) == s.hidden
    &&& (s.fan_in)(Site::Layer(layer, LayerPart::PostAttentionLayernorm)) == s.hidden
}

/// A layer over weights that fit keeps the shape of the hidden states.
pub proof fn law_layer_keeps_shape(
    l: Glm4MoeLiteDecoderLayer,
    layer: usize,
    x: Tensor,
    mask: Tensor,
    cache: Option<SteppingKeyValueCache>,
    s: Sizes,
)
    requires
        layer_matches(l, layer, s),
        has_tokens(s),
        shape(x, s) == Some(hidden_shape(s)),
    ensures
        shape(l.output(layer, x, mask, cache), s) == Some(hidden_shape(s)),
{
    reveal(Glm4MoeLiteDecoderLayer::output);
    let xs = hidden_shape(s);
    let in_op = Op::RmsNorm(Site::Layer(layer, LayerPart::InputLayernorm));
    let post_op = Op::RmsNorm(Site::Layer(layer, LayerPart::PostAttentionLayernorm));
    lemma_shape1(in_op, x, xs, s);
    law_attention_shape(l.self_attn, layer, apply1(in_op, x), mask, cache, s);
    let h = l.attended(layer, x, mask, cache);
    lemma_shape2(
        Op::Add,
        x,
        l.self_attn.output(layer, apply1(in_op, x), mask, cache),
        xs,
        xs,
        s,
    );
    lemma_shape1(post_op, h, xs, s);
    law_mlp_keeps_shape(l.mlp, layer, apply1(post_op, h), s);
    lemma_shape2(Op::Add, h, l.mlp.output(layer, apply1(post_op, h)), xs, xs, s);
}

/// The weights of a model fit its settings.
pub open spec fn model_matches(m: Glm4MoeLiteCausalLM, s: Sizes) -> bool {
    &&& forall|i: int|
        0 <= i < m.model.layers@.len() ==> layer_matches(
            #[trigger] m.model.layers@[i],
            i as usize,
            s,
        )
    &&& (s.fan_in)(Site::FinalNorm) == s.hidden
    &&& m.lm_head is Some ==> {
        &&& (s.fan_in)(Site::LmHead) == s.hidden
        &&& (s.fan_out)(Site::LmHead) == s.vocab
    }
}

proof fn lemma_stack_keeps_shape(
    m: Glm4MoeLiteCausalLM,
    caches: Seq<Option<SteppingKeyValueCache>>,
    x: Tensor,
    mask: Tensor,
    n: nat,
    s: Sizes,
)
    requires
        model_matches(m, s),
        has_tokens(s),
        shape(x, s) == Some(hidden_shape(s)),
        n <= m.model.layers@.len(),
    ensures
        shape(stack_output(m.model.layers@, caches, x, mask, n), s) == Some(hidden_shape(s)),
    decreases n,
{
    if n > 0 {
        let i = (n - 1) as nat;
        lemma_stack_keeps_shape(m, caches, x, mask, i, s);
        assert(layer_matches(m.model.layers@[i as int], i as usize, s));
        law_layer_keeps_shape(
            m.model.layers@[i as int],
            i as usize,
            stack_output(m.model.layers@, caches, x, mask, i),
            mask,
            caches[i as int],
            s,
        );
    }
}

/// A forward pass over weights that fit gives one hidden state for each token
/// id, whatever the mask and the caches, and however many layers there are.
pub proof fn law_hidden_states_shape(
    m: Glm4MoeLiteCausalLM,
    mask_given: bool,
    given: Seq<Option<SteppingKeyValueCache>>,
    s: Sizes,
)
    requires
        model_matches(m, s),
        has_tokens(s),
    ensures
        shape(m.hidden(mask_given, given), s) == Some(hidden_shape(s)),
{
    let ids = seq![s.batch, s.length];
    let x = Glm4MoeLiteCausalLM::embedded();
    let mask = Glm4MoeLiteCausalLM::mask_in_use(mask_given, given);
    let layers = m.model.layers@;
    assert(shape(apply0(Op::Inputs), s) == Some(ids)) by {
        reveal(shape);
    }
    lemma_shape1(Op::Embed, apply0(Op::Inputs), ids, s);
    assert(ids.push(s.hidden) =~= hidden_shape(s));
    let caches = caches_in_use(given, layers.len());
    lemma_stack_keeps_shape(m, caches, x, mask, layers.len(), s);
    lemma_shape1(
        Op::RmsNorm(Site::FinalNorm),
        stack_output(layers, caches, x, mask, layers.len()),
        hidden_shape(s),
        s,
    );
}

/// Scores over the vocabulary, out of hidden states for `length` positions.
proof fn lemma_logits_shape(m: Glm4MoeLiteCausalLM, h: Tensor, length: int, s: Sizes)
    requires
        model_matches(m, s),
        shape(h, s) == Some(seq![s.batch, length, s.hidden]),
    ensures
        shape(m.logits(h), s) == Some(seq![s.batch, length, s.vocab]),
{
    let hs = seq![s.batch, length, s.hidden];
    lemma_shape1(m.head_op(), h, hs, s);
    assert(with_last(hs, s.vocab) =~= seq![s.batch, length, s.vocab]);
}

/// A forward pass that scores every position gives one score for each token id
/// and entry of the vocabulary.
pub proof fn law_all_logits_shape(
    m: Glm4MoeLiteCausalLM,
    mask_given: bool,
    given: Seq<Option<SteppingKeyValueCache>>,
    s: Sizes,
)
    requires
        model_matches(m, s),
        has_tokens(s),
    ensures
        shape(m.logits(m.hidden(mask_given, given)), s) == Some(seq![s.batch, s.length, s.vocab]),
{
    law_hidden_states_shape(m, mask_given, given, s);
    lemma_logits_shape(m, m.hidden(mask_given, given), s.length, s);
}

/// A forward pass that scores the last position gives one score for each entry
/// of the vocabulary.
pub proof fn law_logits_shape(
    m: Glm4MoeLiteCausalLM,
    mask_given: bool,
    given: Seq<Option<SteppingKeyValueCache>>,
    s: Sizes,
)
    requires
        model_matches(m, s),
        has_tokens(s),
    ensures
        shape(
            m.logits(
                apply1(Glm4MoeLiteCausalLM::last_position_op(), m.hidden(mask_given, given)),
            ),
            s,
        ) == Some(seq![s.batch, 1, s.vocab]),
{
    law_hidden_states_shape(m, mask_given, given, s);
    let h = m.hidden(mask_given, given);
    let op = Glm4MoeLiteCausalLM::last_position_op();
    lemma_shape1(op, h, hidden_shape(s), s);
    assert(hidden_shape(s).update(1, 1) =~= seq![s.batch, 1, s.hidden]);
    lemma_logits_shape(m, apply1(op, h), 1, s);
}

} // verus!
