//! What the parts of a model compute, row by row: each outcome at a position, out
//! of what the part takes at that position.
use vstd::prelude::*;

use crate::attention::{to_heads, Glm4MoeLiteAttention};
use crate::binary32::Binary32;
use crate::cache::{start_of, SteppingKeyValueCache};
use crate::decoder::Glm4MoeLiteDecoderLayer;
use crate::decoding::lemma_fetched;
use crate::meaning::{
    is_rowwise, lemma_value1, lemma_value2, lemma_value4, row1, row2, value, Meaning, Pass,
};
use crate::mlp::{gated, Glm4MoeLiteMlpBlock, SharedExperts};
use crate::model::{caches_in_use, stack_output, Glm4MoeLiteCausalLM};
use crate::tape::{apply0, apply1, apply2, apply4, LayerPart, Op, Site, Span, Tensor};

verus! {

proof fn lemma_row1<R>(op: Op, x: Tensor, t: int, m: Meaning<R>, p: Pass<R>)
    requires
        is_rowwise(op),
        0 <= t < value(x, m, p).len(),
    ensures
        value(apply1(op, x), m, p).len() == value(x, m, p).len(),
        value(apply1(op, x), m, p)[t] == row1(m, op, value(x, m, p)[t]),
{
    lemma_value1(op, x, m, p);
    let a = value(x, m, p);
    assert(seq![a].map_values(|v: Seq<R>| v[t]) =~= seq![a[t]]);
}

proof fn lemma_row2<R>(op: Op, x: Tensor, y: Tensor, t: int, m: Meaning<R>, p: Pass<R>)
    requires
        is_rowwise(op),
        0 <= t < value(x, m, p).len(),
    ensures
        value(apply2(op, x, y), m, p).len() == value(x, m, p).len(),
        value(apply2(op, x, y), m, p)[t] == row2(m, op, value(x, m, p)[t], value(y, m, p)[t]),
{
    lemma_value2(op, x, y, m, p);
    let a = value(x, m, p);
    let b = value(y, m, p);
    assert(seq![a, b].map_values(|v: Seq<R>| v[t]) =~= seq![a[t], b[t]]);
}

proof fn lemma_rope_row<R>(
    a: Glm4MoeLiteAttention,
    x: Tensor,
    cache: Option<SteppingKeyValueCache>,
    t: int,
    m: Meaning<R>,
    p: Pass<R>,
)
    requires
        0 <= t < value(x, m, p).len(),
    ensures
        value(a.rotated(x, cache), m, p).len() == value(x, m, p).len(),
        value(a.rotated(x, cache), m, p)[t] == (m.rope)(
            a.qk_rope_head_dim,
            a.rope_base,
            match cache {
                Some(c) => c.offset + t,
                None => t,
            },
            value(x, m, p)[t],
        ),
{
    let offset = start_of(cache);
    lemma_value1(
        Op::Rope { width: a.qk_rope_head_dim, base: a.rope_base, offset },
        x,
        m,
        p,
    );
}

/// The queries at a position, straight or by way of a compressed query: the plain
/// features of each head as they were projected, and behind them the others
/// turned to the position, which counts from where the cache stands.
pub proof fn law_queries_stand_at_their_positions<R>(
    a: Glm4MoeLiteAttention,
    layer: usize,
    x: Tensor,
    cache: Option<SteppingKeyValueCache>,
    t: int,
    m: Meaning<R>,
    p: Pass<R>,
)
    requires
        0 <= t < value(x, m, p).len(),
    ensures
        ({
            let r = value(x, m, p)[t];
            let position = match cache {
                Some(c) => c.offset + t,
                None => t,
            };
            let flat = if a.use_compressed_query {
                row1(
                    m,
                    Op::QLinear(Site::Layer(layer, LayerPart::QBProj)),
                    row1(
                        m,
                        Op::RmsNorm(Site::Layer(layer, LayerPart::QALayernorm)),
                        row1(m, Op::QLinear(Site::Layer(layer, LayerPart::QAProj)), r),
                    ),
                )
            } else {
                row1(m, Op::QLinear(Site::Layer(layer, LayerPart::QProj)), r)
            };
            let width = (a.qk_nope_head_dim + a.qk_rope_head_dim) as i32;
            let heads = row1(
                m,
                Op::SwapHeads,
                row2(
                    m,
                    Op::SplitHeads { heads: a.num_heads, width },
                    flat,
                    row1(m, Op::LeadingDims, r),
                ),
            );
            let plain = row1(
                m,
                Op::Slice { rank: 4, axis: 3, span: Span::To(a.qk_nope_head_dim) },
                heads,
            );
            let raw = row1(
                m,
                Op::Slice { rank: 4, axis: 3, span: Span::From(a.qk_nope_head_dim) },
                heads,
            );
            &&& value(a.queries(layer, x, cache), m, p).len() == value(x, m, p).len()
            &&& value(a.queries(layer, x, cache), m, p)[t] == row2(
                m,
                Op::Concat,
                plain,
                (m.rope)(a.qk_rope_head_dim, a.rope_base, position, raw),
            )
        }),
{
    if a.use_compressed_query {
        let op_a = Op::QLinear(Site::Layer(layer, LayerPart::QAProj));
        let op_n = Op::RmsNorm(Site::Layer(layer, LayerPart::QALayernorm));
        let op_b = Op::QLinear(Site::Layer(layer, LayerPart::QBProj));
        lemma_row1(op_a, x, t, m, p);
        lemma_row1(op_n, apply1(op_a, x), t, m, p);
        lemma_row1(op_b, apply1(op_n, apply1(op_a, x)), t, m, p);
    } else {
        lemma_row1(Op::QLinear(Site::Layer(layer, LayerPart::QProj)), x, t, m, p);
    }
    let q = a.head_queries(layer, x);
    lemma_heads_row(
        a.projected_query(layer, x),
        x,
        a.num_heads,
        (a.qk_nope_head_dim + a.qk_rope_head_dim) as i32,
        t,
        m,
        p,
    );
    let plain_op = Op::Slice { rank: 4, axis: 3, span: Span::To(a.qk_nope_head_dim) };
    let raw_op = Op::Slice { rank: 4, axis: 3, span: Span::From(a.qk_nope_head_dim) };
    lemma_row1(plain_op, q, t, m, p);
    lemma_row1(raw_op, q, t, m, p);
    lemma_rope_row(a, apply1(raw_op, q), cache, t, m, p);
    lemma_row2(Op::Concat, apply1(plain_op, q), a.rotated(apply1(raw_op, q), cache), t, m, p);
}

proof fn lemma_heads_row<R>(
    u: Tensor,
    x: Tensor,
    heads: i32,
    width: i32,
    t: int,
    m: Meaning<R>,
    p: Pass<R>,
)
    requires
        0 <= t < value(u, m, p).len(),
        value(u, m, p).len() == value(x, m, p).len(),
    ensures
        ({
            let cut = to_heads(u, x, heads, width);
            &&& value(cut, m, p).len() == value(u, m, p).len()
            &&& value(cut, m, p)[t] == row1(
                m,
                Op::SwapHeads,
                row2(
                    m,
                    Op::SplitHeads { heads, width },
                    value(u, m, p)[t],
                    row1(m, Op::LeadingDims, value(x, m, p)[t]),
                ),
            )
        }),
{
    let dims = apply1(Op::LeadingDims, x);
    let op = Op::SplitHeads { heads, width };
    lemma_row1(Op::LeadingDims, x, t, m, p);
    lemma_row2(op, u, dims, t, m, p);
    lemma_row1(Op::SwapHeads, apply2(op, u, dims), t, m, p);
}

/// The keys and values at a position of the pass. Both come out of a compressed
/// form. The keys of each head have plain features of their own, and behind them
/// a key that all heads share, turned to the position, which counts from where
/// the cache stands.
proof fn lemma_new_keys_row<R>(
    a: Glm4MoeLiteAttention,
    layer: usize,
    x: Tensor,
    cache: Option<SteppingKeyValueCache>,
    t: int,
    m: Meaning<R>,
    p: Pass<R>,
)
    requires
        0 <= t < value(x, m, p).len(),
    ensures
        ({
            let r = value(x, m, p)[t];
            let position = match cache {
                Some(c) => c.offset + t,
                None => t,
            };
            let dims = row1(m, Op::LeadingDims, r);
            let compressed = row1(
                m,
                Op::QLinear(Site::Layer(layer, LayerPart::KvAProjWithMqa)),
                r,
            );
            let latent = row1(
                m,
                Op::Slice { rank: 3, axis: 2, span: Span::To(a.kv_lora_rank) },
                compressed,
            );
            let raw = row1(
                m,
                Op::SwapHeads,
                row2(
                    m,
                    Op::SplitHeads { heads: 1, width: a.qk_rope_head_dim },
                    row1(
                        m,
                        Op::Slice { rank: 3, axis: 2, span: Span::From(a.kv_lora_rank) },
                        compressed,
                    ),
                    dims,
                ),
            );
            let heads = row1(
                m,
                Op::SwapHeads,
                row2(
                    m,
                    Op::SplitHeads { heads: a.num_heads, width: (-1) as i32 },
                    row1(
                        m,
                        Op::QLinear(Site::Layer(layer, LayerPart::KvBProj)),
                        row1(
                            m,
                            Op::RmsNorm(Site::Layer(layer, LayerPart::KvALayernorm)),
                            latent,
                        ),
                    ),
                    dims,
                ),
            );
            let n = value(x, m, p).len();
            &&& value(a.new_keys(layer, x, cache), m, p).len() == n
            &&& value(a.new_values(layer, x), m, p).len() == n
            &&& value(a.new_keys(layer, x, cache), m, p)[t] == row2(
                m,
                Op::Concat,
                row1(
                    m,
                    Op::Slice { rank: 4, axis: 3, span: Span::To(a.qk_nope_head_dim) },
                    heads,
                ),
                row2(
                    m,
                    Op::BroadcastHeads { heads: a.num_heads, width: a.qk_rope_head_dim },
                    (m.rope)(a.qk_rope_head_dim, a.rope_base, position, raw),
                    dims,
                ),
            )
            &&& value(a.new_values(layer, x), m, p)[t] == row1(
                m,
                Op::Slice { rank: 4, axis: 3, span: Span::From(a.qk_nope_head_dim) },
                heads,
            )
        }),
{
    let mqa_op = Op::QLinear(Site::Layer(layer, LayerPart::KvAProjWithMqa));
    let latent_op = Op::Slice { rank: 3, axis: 2, span: Span::To(a.kv_lora_rank) };
    let pe_op = Op::Slice { rank: 3, axis: 2, span: Span::From(a.kv_lora_rank) };
    let compressed = apply1(mqa_op, x);
    lemma_row1(mqa_op, x, t, m, p);
    lemma_row1(latent_op, compressed, t, m, p);
    lemma_row1(pe_op, compressed, t, m, p);
    lemma_heads_row(apply1(pe_op, compressed), x, 1, a.qk_rope_head_dim, t, m, p);
    let shared = a.shared_key(layer, x);
    lemma_rope_row(a, shared, cache, t, m, p);
    lemma_row1(Op::LeadingDims, x, t, m, p);
    let dims = apply1(Op::LeadingDims, x);
    let broadcast_op = Op::BroadcastHeads { heads: a.num_heads, width: a.qk_rope_head_dim };
    lemma_row2(broadcast_op, a.rotated(shared, cache), dims, t, m, p);
    let norm_op = Op::RmsNorm(Site::Layer(layer, LayerPart::KvALayernorm));
    let b_op = Op::QLinear(Site::Layer(layer, LayerPart::KvBProj));
    let latent = apply1(latent_op, compressed);
    lemma_row1(norm_op, latent, t, m, p);
    lemma_row1(b_op, apply1(norm_op, latent), t, m, p);
    lemma_heads_row(apply1(b_op, apply1(norm_op, latent)), x, a.num_heads, (-1) as i32, t, m, p);
    let kv = a.head_kv(layer, x);
    let plain_op = Op::Slice { rank: 4, axis: 3, span: Span::To(a.qk_nope_head_dim) };
    let rest_op = Op::Slice { rank: 4, axis: 3, span: Span::From(a.qk_nope_head_dim) };
    lemma_row1(plain_op, kv, t, m, p);
    lemma_row1(rest_op, kv, t, m, p);
    lemma_row2(
        Op::Concat,
        apply1(plain_op, kv),
        apply2(broadcast_op, a.rotated(shared, cache), dims),
        t,
        m,
        p,
    );
}

/// The keys that are attended to: those that the cache holds, if there is one,
/// and behind them one row for each position of the pass. There the keys of each
/// head have plain features of their own, out of the compressed form, and behind
/// them a key that all heads share, turned to the position, which counts from
/// where the cache stands.
pub proof fn law_keys_stand_at_their_positions<R>(
    a: Glm4MoeLiteAttention,
    layer: usize,
    x: Tensor,
    cache: Option<SteppingKeyValueCache>,
    t: int,
    m: Meaning<R>,
    p: Pass<R>,
)
    requires
        0 <= t < value(x, m, p).len(),
    ensures
        ({
            let r = value(x, m, p)[t];
            let keys = value(a.keys(layer, x, cache), m, p);
            let held = if cache is Some {
                (p.held)(layer).keys
            } else {
                seq![]
            };
            let position = match cache {
                Some(c) => c.offset + t,
                None => t,
            };
            let dims = row1(m, Op::LeadingDims, r);
            let compressed = row1(
                m,
                Op::QLinear(Site::Layer(layer, LayerPart::KvAProjWithMqa)),
                r,
            );
            let latent = row1(
                m,
                Op::Slice { rank: 3, axis: 2, span: Span::To(a.kv_lora_rank) },
                compressed,
            );
            let flat = row1(
                m,
                Op::QLinear(Site::Layer(layer, LayerPart::KvBProj)),
                row1(m, Op::RmsNorm(Site::Layer(layer, LayerPart::KvALayernorm)), latent),
            );
            let heads = row1(
                m,
                Op::SwapHeads,
                row2(m, Op::SplitHeads { heads: a.num_heads, width: (-1) as i32 }, flat, dims),
            );
            let plain = row1(
                m,
                Op::Slice { rank: 4, axis: 3, span: Span::To(a.qk_nope_head_dim) },
                heads,
            );
            let flat_raw = row1(
                m,
                Op::Slice { rank: 3, axis: 2, span: Span::From(a.kv_lora_rank) },
                compressed,
            );
            let raw = row1(
                m,
                Op::SwapHeads,
                row2(m, Op::SplitHeads { heads: 1, width: a.qk_rope_head_dim }, flat_raw, dims),
            );
            let turned = (m.rope)(a.qk_rope_head_dim, a.rope_base, position, raw);
            &&& keys.len() == held.len() + value(x, m, p).len()
            &&& keys.take(held.len() as int) == held
            &&& keys[held.len() + t] == row2(
                m,
                Op::Concat,
                plain,
                row2(
                    m,
                    Op::BroadcastHeads { heads: a.num_heads, width: a.qk_rope_head_dim },
                    turned,
                    dims,
                ),
            )
        }),
{
    lemma_new_keys_row(a, layer, x, cache, t, m, p);
    if cache is Some {
        lemma_fetched(a, layer, x, cache, m, p);
        let keys = value(a.keys(layer, x, cache), m, p);
        assert(keys.take((p.held)(layer).keys.len() as int) =~= (p.held)(layer).keys);
    } else {
        assert(value(a.keys(layer, x, cache), m, p).take(0) =~= seq![]);
    }
}

/// The values that are attended to: those that the cache holds, if there is one,
/// and behind them one row for each position of the pass: what the compressed
/// form gives for each head behind the plain features of its keys.
pub proof fn law_values_come_out_of_the_compressed_form<R>(
    a: Glm4MoeLiteAttention,
    layer: usize,
    x: Tensor,
    cache: Option<SteppingKeyValueCache>,
    t: int,
    m: Meaning<R>,
    p: Pass<R>,
)
    requires
        0 <= t < value(x, m, p).len(),
    ensures
        ({
            let r = value(x, m, p)[t];
            let values = value(a.values(layer, x, cache), m, p);
            let held = if cache is Some {
                (p.held)(layer).values
            } else {
                seq![]
            };
            let latent = row1(
                m,
                Op::Slice { rank: 3, axis: 2, span: Span::To(a.kv_lora_rank) },
                row1(m, Op::QLinear(Site::Layer(layer, LayerPart::KvAProjWithMqa)), r),
            );
            let flat = row1(
                m,
                Op::QLinear(Site::Layer(layer, LayerPart::KvBProj)),
                row1(m, Op::RmsNorm(Site::Layer(layer, LayerPart::KvALayernorm)), latent),
            );
            let heads = row1(
                m,
                Op::SwapHeads,
                row2(
                    m,
                    Op::SplitHeads { heads: a.num_heads, width: (-1) as i32 },
                    flat,
                    row1(m, Op::LeadingDims, r),
                ),
            );
            &&& values.len() == held.len() + value(x, m, p).len()
            &&& values.take(held.len() as int) == held
            &&& values[held.len() + t] == row1(
                m,
                Op::Slice { rank: 4, axis: 3, span: Span::From(a.qk_nope_head_dim) },
                heads,
            )
        }),
{
    lemma_new_keys_row(a, layer, x, cache, t, m, p);
    if cache is Some {
        lemma_fetched(a, layer, x, cache, m, p);
        let values = value(a.values(layer, x, cache), m, p);
        assert(values.take((p.held)(layer).values.len() as int) =~= (p.held)(layer).values);
    } else {
        assert(value(a.values(layer, x, cache), m, p).take(0) =~= seq![]);
    }
}

/// The outcome of an attention at a position: what the queries there, and no
/// others, see of all keys and values under the row of the mask for the position,
/// with the heads put together and projected.
pub proof fn law_each_position_attends<R>(
    a: Glm4MoeLiteAttention,
    layer: usize,
    x: Tensor,
    mask: Tensor,
    cache: Option<SteppingKeyValueCache>,
    t: int,
    m: Meaning<R>,
    p: Pass<R>,
)
    requires
        0 <= t < value(x, m, p).len(),
    ensures
        ({
            let out = value(a.output(layer, x, mask, cache), m, p);
            let seen = (m.attend)(
                a.head_dim,
                value(a.queries(layer, x, cache), m, p)[t],
                value(a.keys(layer, x, cache), m, p),
                value(a.values(layer, x, cache), m, p),
                value(mask, m, p)[t],
            );
            &&& out.len() == value(x, m, p).len()
            &&& out[t] == row1(
                m,
                Op::QLinear(Site::Layer(layer, LayerPart::OProj)),
                row2(
                    m,
                    Op::MergeHeads,
                    row1(m, Op::SwapHeads, seen),
                    row1(m, Op::LeadingDims, value(x, m, p)[t]),
                ),
            )
        }),
{
    reveal(Glm4MoeLiteAttention::output);
    law_queries_stand_at_their_positions(a, layer, x, cache, t, m, p);
    let op = Op::Attend { head_dim: a.head_dim };
    let (q, k, v) = (
        a.queries(layer, x, cache),
        a.keys(layer, x, cache),
        a.values(layer, x, cache),
    );
    lemma_value4(op, q, k, v, mask, m, p);
    let seen = apply4(op, q, k, v, mask);
    let dims = apply1(Op::LeadingDims, x);
    lemma_row1(Op::SwapHeads, seen, t, m, p);
    lemma_row1(Op::LeadingDims, x, t, m, p);
    let swapped = apply1(Op::SwapHeads, seen);
    lemma_row2(Op::MergeHeads, swapped, dims, t, m, p);
    lemma_row1(
        Op::QLinear(Site::Layer(layer, LayerPart::OProj)),
        apply2(Op::MergeHeads, swapped, dims),
        t,
        m,
        p,
    );
}

/// The same operations, but for a rotary embedding that leaves every row as it
/// is.
pub open spec fn unturned<R>(m: Meaning<R>) -> Meaning<R> {
    Meaning { rope: |width: i32, base: Binary32, position: int, r: R| r, ..m }
}

/// The features that a row has ahead of `at`, and those from there on.
pub open spec fn parts_of<R>(m: Meaning<R>, at: i32, r: R) -> (R, R) {
    (
        row1(m, Op::Slice { rank: 4, axis: 3, span: Span::To(at) }, r),
        row1(m, Op::Slice { rank: 4, axis: 3, span: Span::From(at) }, r),
    )
}

/// Of features that were put together, those ahead of `at` are the first ones and
/// those from there on the others.
pub open spec fn comes_apart_at<R>(m: Meaning<R>, at: i32) -> bool {
    forall|a: R, b: R| parts_of(m, at, #[trigger] row2(m, Op::Concat, a, b)) == (a, b)
}

/// To turn rows to their positions changes of the queries the last features and
/// no others: they are the features without it, turned by the base of the
/// settings to the position, which counts from where the cache stands. This goes
/// for straight and for compressed queries.
pub proof fn law_queries_are_turned<R>(
    a: Glm4MoeLiteAttention,
    layer: usize,
    x: Tensor,
    cache: Option<SteppingKeyValueCache>,
    t: int,
    m: Meaning<R>,
    p: Pass<R>,
)
    requires
        comes_apart_at(m, a.qk_nope_head_dim),
        value(x, m, p) == value(x, unturned(m), p),
        0 <= t < value(x, m, p).len(),
    ensures
        ({
            let (plain, last) = parts_of(
                m,
                a.qk_nope_head_dim,
                value(a.queries(layer, x, cache), m, p)[t],
            );
            let (plain0, last0) = parts_of(
                m,
                a.qk_nope_head_dim,
                value(a.queries(layer, x, cache), unturned(m), p)[t],
            );
            let position = match cache {
                Some(c) => c.offset + t,
                None => t,
            };
            &&& plain == plain0
            &&& last == (m.rope)(a.qk_rope_head_dim, a.rope_base, position, last0)
        }),
{
    law_queries_stand_at_their_positions(a, layer, x, cache, t, m, p);
    law_queries_stand_at_their_positions(a, layer, x, cache, t, unturned(m), p);
    let m0 = unturned(m);
    assert forall|op: Op, r: R| #[trigger] row1(m0, op, r) == row1(m, op, r) by {}
    assert forall|op: Op, r: R, q: R| #[trigger] row2(m0, op, r, q) == row2(m, op, r, q) by {}
}

/// To turn rows to their positions changes of the keys of a pass the last
/// features and no others: all heads have there one row, turned by the base of
/// the settings to the position, which counts from where the cache stands.
pub proof fn law_keys_are_turned<R>(
    a: Glm4MoeLiteAttention,
    layer: usize,
    x: Tensor,
    cache: Option<SteppingKeyValueCache>,
    t: int,
    m: Meaning<R>,
    p: Pass<R>,
)
    requires
        comes_apart_at(m, a.qk_nope_head_dim),
        value(x, m, p) == value(x, unturned(m), p),
        0 <= t < value(x, m, p).len(),
    ensures
        ({
            let held = if cache is Some {
                (p.held)(layer).keys.len()
            } else {
                0
            };
            let (plain, last) = parts_of(
                m,
                a.qk_nope_head_dim,
                value(a.keys(layer, x, cache), m, p)[held + t],
            );
            let (plain0, last0) = parts_of(
                m,
                a.qk_nope_head_dim,
                value(a.keys(layer, x, cache), unturned(m), p)[held + t],
            );
            let position = match cache {
                Some(c) => c.offset + t,
                None => t,
            };
            let all_heads = Op::BroadcastHeads { heads: a.num_heads, width: a.qk_rope_head_dim };
            let dims = row1(m, Op::LeadingDims, value(x, m, p)[t]);
            &&& plain == plain0
            &&& exists|shared: R|
                {
                    &&& last0 == #[trigger] row2(m, all_heads, shared, dims)
                    &&& last == row2(
                        m,
                        all_heads,
                        (m.rope)(a.qk_rope_head_dim, a.rope_base, position, shared),
                        dims,
                    )
                }
        }),
{
    law_keys_stand_at_their_positions(a, layer, x, cache, t, m, p);
    law_keys_stand_at_their_positions(a, layer, x, cache, t, unturned(m), p);
    let m0 = unturned(m);
    assert forall|op: Op, r: R| #[trigger] row1(m0, op, r) == row1(m, op, r) by {}
    assert forall|op: Op, r: R, q: R| #[trigger] row2(m0, op, r, q) == row2(m, op, r, q) by {}
    let r = value(x, m, p)[t];
    let dims = row1(m, Op::LeadingDims, r);
    let compressed = row1(m, Op::QLinear(Site::Layer(layer, LayerPart::KvAProjWithMqa)), r);
    let flat_raw = row1(
        m,
        Op::Slice { rank: 3, axis: 2, span: Span::From(a.kv_lora_rank) },
        compressed,
    );
    let shared = row1(
        m,
        Op::SwapHeads,
        row2(m, Op::SplitHeads { heads: 1, width: a.qk_rope_head_dim }, flat_raw, dims),
    );
    let all_heads = Op::BroadcastHeads { heads: a.num_heads, width: a.qk_rope_head_dim };
    assert(row2(m, all_heads, shared, dims) == row2(m0, all_heads, shared, dims));
}

/// The scores ahead of scaling, at a position: the probabilities of the chosen
/// experts, divided by their sum if so set, whatever the scaling factor is.
proof fn lemma_scores_row<R>(
    b: Glm4MoeLiteMlpBlock,
    layer: usize,
    x: Tensor,
    t: int,
    m: Meaning<R>,
    p: Pass<R>,
)
    requires
        0 <= t < value(x, m, p).len(),
    ensures
        ({
            let r = value(x, m, p)[t];
            let gates = row1(
                m,
                Op::Softmax,
                row1(m, Op::Linear(Site::Layer(layer, LayerPart::RouterGate)), r),
            );
            let experts = row1(
                m,
                Op::Slice {
                    rank: 3,
                    axis: 2,
                    span: Span::From((b.num_experts - b.top_k) as i32),
                },
                row1(m, Op::ArgPartition { kth: (-b.top_k) as i32 }, gates),
            );
            let chosen = row2(m, Op::TakeAlong, gates, experts);
            let scores = if b.norm_topk_prob {
                row2(m, Op::Divide, chosen, row1(m, Op::SumLast, chosen))
            } else {
                chosen
            };
            let weights = if b.scaling_factor.departs_from_one() {
                row2(
                    m,
                    Op::Multiply,
                    scores,
                    row1(m, Op::ScalarLike { value: b.scaling_factor }, scores),
                )
            } else {
                scores
            };
            let n = value(x, m, p).len();
            &&& value(b.experts(layer, x), m, p).len() == n
            &&& value(b.experts(layer, x), m, p)[t] == experts
            &&& value(b.scaled_scores(layer, x), m, p).len() == n
            &&& value(b.scaled_scores(layer, x), m, p)[t] == weights
        }),
{
    let gate_op = Op::Linear(Site::Layer(layer, LayerPart::RouterGate));
    let gates = apply1(Op::Softmax, apply1(gate_op, x));
    lemma_row1(gate_op, x, t, m, p);
    lemma_row1(Op::Softmax, apply1(gate_op, x), t, m, p);
    let partition_op = Op::ArgPartition { kth: (-b.top_k) as i32 };
    let slice_op = Op::Slice {
        rank: 3,
        axis: 2,
        span: Span::From((b.num_experts - b.top_k) as i32),
    };
    lemma_row1(partition_op, gates, t, m, p);
    lemma_row1(slice_op, apply1(partition_op, gates), t, m, p);
    let experts = apply1(slice_op, apply1(partition_op, gates));
    let chosen = apply2(Op::TakeAlong, gates, experts);
    lemma_row2(Op::TakeAlong, gates, experts, t, m, p);
    lemma_row1(Op::SumLast, chosen, t, m, p);
    lemma_row2(Op::Divide, chosen, apply1(Op::SumLast, chosen), t, m, p);
    let scores = if b.norm_topk_prob {
        apply2(Op::Divide, chosen, apply1(Op::SumLast, chosen))
    } else {
        chosen
    };
    let scalar_op = Op::ScalarLike { value: b.scaling_factor };
    lemma_row1(scalar_op, scores, t, m, p);
    lemma_row2(Op::Multiply, scores, apply1(scalar_op, scores), t, m, p);
}

/// What a routed block gives a token: the chosen experts, which are those from
/// the pivot of the partition on, run on the token, each weighted by its score,
/// and summed; and the shared experts' outcome is added where there are any. The
/// score of an expert is its probability, divided by the sum of the probabilities
/// of the chosen experts if so set, and multiplied by the scaling factor unless
/// that is as good as 1.
pub proof fn law_a_token_is_routed_by_its_scores<R>(
    b: Glm4MoeLiteMlpBlock,
    layer: usize,
    x: Tensor,
    t: int,
    m: Meaning<R>,
    p: Pass<R>,
)
    requires
        0 <= t < value(x, m, p).len(),
    ensures
        ({
            let r = value(x, m, p)[t];
            let gates = row1(
                m,
                Op::Softmax,
                row1(m, Op::Linear(Site::Layer(layer, LayerPart::RouterGate)), r),
            );
            let experts = row1(
                m,
                Op::Slice {
                    rank: 3,
                    axis: 2,
                    span: Span::From((b.num_experts - b.top_k) as i32),
                },
                row1(m, Op::ArgPartition { kth: (-b.top_k) as i32 }, gates),
            );
            let chosen = row2(m, Op::TakeAlong, gates, experts);
            let scores = if b.norm_topk_prob {
                row2(m, Op::Divide, chosen, row1(m, Op::SumLast, chosen))
            } else {
                chosen
            };
            let weights = if b.scaling_factor.departs_from_one() {
                row2(
                    m,
                    Op::Multiply,
                    scores,
                    row1(m, Op::ScalarLike { value: b.scaling_factor }, scores),
                )
            } else {
                scores
            };
            let routed = row1(
                m,
                Op::SumExperts,
                row2(
                    m,
                    Op::Multiply,
                    row2(m, Op::SwitchMlp(Site::Layer(layer, LayerPart::SwitchMlp)), r, experts),
                    row1(m, Op::ExpandLast, weights),
                ),
            );
            let shared = row1(
                m,
                Op::QLinear(Site::Layer(layer, LayerPart::SharedDownProj)),
                row2(
                    m,
                    Op::Swiglu,
                    row1(m, Op::QLinear(Site::Layer(layer, LayerPart::SharedGateProj)), r),
                    row1(m, Op::QLinear(Site::Layer(layer, LayerPart::SharedUpProj)), r),
                ),
            );
            let outcome = if b.shared_experts is Some {
                row2(m, Op::Add, routed, shared)
            } else {
                routed
            };
            &&& value(b.moe_output(layer, x), m, p)[t] == outcome
            &&& b.is_moe ==> value(b.output(layer, x), m, p)[t] == outcome
        }),
{
    reveal(Glm4MoeLiteMlpBlock::output);
    lemma_scores_row(b, layer, x, t, m, p);
    let experts = b.experts(layer, x);
    let weights = b.scaled_scores(layer, x);
    let switch_op = Op::SwitchMlp(Site::Layer(layer, LayerPart::SwitchMlp));
    let y = apply2(switch_op, x, experts);
    lemma_row2(switch_op, x, experts, t, m, p);
    lemma_row1(Op::ExpandLast, weights, t, m, p);
    let weighted = apply2(Op::Multiply, y, apply1(Op::ExpandLast, weights));
    lemma_row2(Op::Multiply, y, apply1(Op::ExpandLast, weights), t, m, p);
    lemma_row1(Op::SumExperts, weighted, t, m, p);
    lemma_gated_row(
        layer,
        LayerPart::SharedGateProj,
        LayerPart::SharedUpProj,
        LayerPart::SharedDownProj,
        x,
        t,
        m,
        p,
    );
    lemma_row2(
        Op::Add,
        apply1(Op::SumExperts, weighted),
        SharedExperts::output(layer, x),
        t,
        m,
        p,
    );
}

proof fn lemma_gated_row<R>(
    layer: usize,
    gate: LayerPart,
    up: LayerPart,
    down: LayerPart,
    x: Tensor,
    t: int,
    m: Meaning<R>,
    p: Pass<R>,
)
    requires
        0 <= t < value(x, m, p).len(),
    ensures
        ({
            let r = value(x, m, p)[t];
            let out = gated(
                x,
                Op::QLinear(Site::Layer(layer, gate)),
                Op::QLinear(Site::Layer(layer, up)),
                Op::QLinear(Site::Layer(layer, down)),
            );
            &&& value(out, m, p).len() == value(x, m, p).len()
            &&& value(out, m, p)[t] == row1(
                m,
                Op::QLinear(Site::Layer(layer, down)),
                row2(
                    m,
                    Op::Swiglu,
                    row1(m, Op::QLinear(Site::Layer(layer, gate)), r),
                    row1(m, Op::QLinear(Site::Layer(layer, up)), r),
                ),
            )
        }),
{
    let g = apply1(Op::QLinear(Site::Layer(layer, gate)), x);
    let u = apply1(Op::QLinear(Site::Layer(layer, up)), x);
    lemma_row1(Op::QLinear(Site::Layer(layer, gate)), x, t, m, p);
    lemma_row1(Op::QLinear(Site::Layer(layer, up)), x, t, m, p);
    lemma_row2(Op::Swiglu, g, u, t, m, p);
    lemma_row1(Op::QLinear(Site::Layer(layer, down)), apply2(Op::Swiglu, g, u), t, m, p);
}

/// What the shared experts and a dense block give a token: the gating projection,
/// activated, times the up projection, projected down.
pub proof fn law_dense_tokens_are_gated<R>(
    b: Glm4MoeLiteMlpBlock,
    layer: usize,
    x: Tensor,
    t: int,
    m: Meaning<R>,
    p: Pass<R>,
)
    requires
        0 <= t < value(x, m, p).len(),
    ensures
        ({
            let r = value(x, m, p)[t];
            let shared = row1(
                m,
                Op::QLinear(Site::Layer(layer, LayerPart::SharedDownProj)),
                row2(
                    m,
                    Op::Swiglu,
                    row1(m, Op::QLinear(Site::Layer(layer, LayerPart::SharedGateProj)), r),
                    row1(m, Op::QLinear(Site::Layer(layer, LayerPart::SharedUpProj)), r),
                ),
            );
            let dense = row1(
                m,
                Op::QLinear(Site::Layer(layer, LayerPart::DenseDownProj)),
                row2(
                    m,
                    Op::Swiglu,
                    row1(m, Op::QLinear(Site::Layer(layer, LayerPart::DenseGateProj)), r),
                    row1(m, Op::QLinear(Site::Layer(layer, LayerPart::DenseUpProj)), r),
                ),
            );
            &&& value(SharedExperts::output(layer, x), m, p)[t] == shared
            &&& value(Glm4MoeLiteMlpBlock::dense_output(layer, x), m, p)[t] == dense
            &&& !b.is_moe ==> value(b.output(layer, x), m, p)[t] == dense
        }),
{
    reveal(Glm4MoeLiteMlpBlock::output);
    lemma_gated_row(
        layer,
        LayerPart::SharedGateProj,
        LayerPart::SharedUpProj,
        LayerPart::SharedDownProj,
        x,
        t,
        m,
        p,
    );
    lemma_gated_row(
        layer,
        LayerPart::DenseGateProj,
        LayerPart::DenseUpProj,
        LayerPart::DenseDownProj,
        x,
        t,
        m,
        p,
    );
}

/// To divide by a sum brings the sum to `one`.
pub open spec fn divides_to_one<R>(m: Meaning<R>, one: R) -> bool {
    forall|r: R|
        row1(m, Op::SumLast, #[trigger] row2(m, Op::Divide, r, row1(m, Op::SumLast, r))) == one
}

/// Where the scores are to be brought to a sum of 1, they are, whatever the
/// scaling factor is: the chosen experts are weighted by scores that sum to 1, or
/// by such scores times the scaling factor if that departs from 1. Where they are
/// not to be, the scores are the probabilities of the chosen experts.
pub proof fn law_normalised_scores_sum_to_one<R>(
    b: Glm4MoeLiteMlpBlock,
    layer: usize,
    x: Tensor,
    t: int,
    one: R,
    m: Meaning<R>,
    p: Pass<R>,
)
    requires
        b.shared_experts is None,
        divides_to_one(m, one),
        0 <= t < value(x, m, p).len(),
    ensures
        ({
            let r = value(x, m, p)[t];
            let gates = row1(
                m,
                Op::Softmax,
                row1(m, Op::Linear(Site::Layer(layer, LayerPart::RouterGate)), r),
            );
            let experts = row1(
                m,
                Op::Slice {
                    rank: 3,
                    axis: 2,
                    span: Span::From((b.num_experts - b.top_k) as i32),
                },
                row1(m, Op::ArgPartition { kth: (-b.top_k) as i32 }, gates),
            );
            let run = row2(
                m,
                Op::SwitchMlp(Site::Layer(layer, LayerPart::SwitchMlp)),
                r,
                experts,
            );
            exists|scores: R|
                {
                    &&& b.norm_topk_prob ==> #[trigger] row1(m, Op::SumLast, scores) == one
                    &&& !b.norm_topk_prob ==> scores == row2(m, Op::TakeAlong, gates, experts)
                    &&& value(b.moe_output(layer, x), m, p)[t] == row1(
                        m,
                        Op::SumExperts,
                        row2(
                            m,
                            Op::Multiply,
                            run,
                            row1(
                                m,
                                Op::ExpandLast,
                                if b.scaling_factor.departs_from_one() {
                                    row2(
                                        m,
                                        Op::Multiply,
                                        scores,
                                        row1(
                                            m,
                                            Op::ScalarLike { value: b.scaling_factor },
                                            scores,
                                        ),
                                    )
                                } else {
                                    scores
                                },
                            ),
                        ),
                    )
                }
        }),
{
    law_a_token_is_routed_by_its_scores(b, layer, x, t, m, p);
    let r = value(x, m, p)[t];
    let gates = row1(
        m,
        Op::Softmax,
        row1(m, Op::Linear(Site::Layer(layer, LayerPart::RouterGate)), r),
    );
    let experts = row1(
        m,
        Op::Slice { rank: 3, axis: 2, span: Span::From((b.num_experts - b.top_k) as i32) },
        row1(m, Op::ArgPartition { kth: (-b.top_k) as i32 }, gates),
    );
    let chosen = row2(m, Op::TakeAlong, gates, experts);
    let divided = row2(m, Op::Divide, chosen, row1(m, Op::SumLast, chosen));
    assert(row1(m, Op::SumLast, divided) == one);
}

/// A scaling factor scales and does nothing else: two blocks that differ in the
/// factor alone choose the same experts by the same scores, normalised in both or
/// in neither. The block whose factor departs from 1 weights the experts by the
/// scores times the factor, the other one by the scores.
pub proof fn law_scaling_leaves_the_scores_alone<R>(
    b: Glm4MoeLiteMlpBlock,
    factor: Binary32,
    layer: usize,
    x: Tensor,
    t: int,
    m: Meaning<R>,
    p: Pass<R>,
)
    requires
        b.shared_experts is None,
        b.scaling_factor.departs_from_one(),
        !factor.departs_from_one(),
        0 <= t < value(x, m, p).len(),
    ensures
        ({
            let unscaled = Glm4MoeLiteMlpBlock { scaling_factor: factor, ..b };
            let scalar_op = Op::ScalarLike { value: b.scaling_factor };
            exists|run: R, scores: R|
                {
                    &&& value(unscaled.moe_output(layer, x), m, p)[t] == row1(
                        m,
                        Op::SumExperts,
                        #[trigger] row2(m, Op::Multiply, run, row1(m, Op::ExpandLast, scores)),
                    )
                    &&& value(b.moe_output(layer, x), m, p)[t] == row1(
                        m,
                        Op::SumExperts,
                        row2(
                            m,
                            Op::Multiply,
                            run,
                            row1(
                                m,
                                Op::ExpandLast,
                                row2(m, Op::Multiply, scores, row1(m, scalar_op, scores)),
                            ),
                        ),
                    )
                }
        }),
{
    let unscaled = Glm4MoeLiteMlpBlock { scaling_factor: factor, ..b };
    law_a_token_is_routed_by_its_scores(b, layer, x, t, m, p);
    law_a_token_is_routed_by_its_scores(unscaled, layer, x, t, m, p);
}

/// A layer, dense or routed, adds to what comes in what its attention makes of it
/// behind a normalisation, and to the sum what its feed-forward block makes of the
/// sum behind another normalisation.
pub proof fn law_a_layer_adds_twice<R>(
    l: Glm4MoeLiteDecoderLayer,
    layer: usize,
    x: Tensor,
    mask: Tensor,
    cache: Option<SteppingKeyValueCache>,
    t: int,
    m: Meaning<R>,
    p: Pass<R>,
)
    requires
        0 <= t < value(x, m, p).len(),
    ensures
        ({
            let normed = apply1(Op::RmsNorm(Site::Layer(layer, LayerPart::InputLayernorm)), x);
            let attention = l.self_attn.output(layer, normed, mask, cache);
            let h = apply2(Op::Add, x, attention);
            let normed_post = apply1(
                Op::RmsNorm(Site::Layer(layer, LayerPart::PostAttentionLayernorm)),
                h,
            );
            let block = l.mlp.output(layer, normed_post);
            let sum = row2(m, Op::Add, value(x, m, p)[t], value(attention, m, p)[t]);
            &&& value(h, m, p)[t] == sum
            &&& value(l.output(layer, x, mask, cache), m, p).len() == value(x, m, p).len()
            &&& value(l.output(layer, x, mask, cache), m, p)[t] == row2(
                m,
                Op::Add,
                sum,
                value(block, m, p)[t],
            )
        }),
{
    reveal(Glm4MoeLiteDecoderLayer::output);
    let normed = apply1(Op::RmsNorm(Site::Layer(layer, LayerPart::InputLayernorm)), x);
    let attention = l.self_attn.output(layer, normed, mask, cache);
    let h = apply2(Op::Add, x, attention);
    let post_op = Op::RmsNorm(Site::Layer(layer, LayerPart::PostAttentionLayernorm));
    lemma_row2(Op::Add, x, attention, t, m, p);
    lemma_row2(Op::Add, h, l.mlp.output(layer, apply1(post_op, h)), t, m, p);
}

/// To add the row changes nothing.
pub open spec fn is_neutral<R>(m: Meaning<R>, r: R) -> bool {
    forall|a: R| #[trigger] row2(m, Op::Add, a, r) == a
}

/// What comes into a layer passes through it unchanged, but for what attention
/// and feed-forward block add: where the block adds nothing, the outcome is what
/// the attention left, and where the attention adds nothing either, it is what
/// came in. This goes for dense and routed layers.
pub proof fn law_the_stream_passes_through<R>(
    l: Glm4MoeLiteDecoderLayer,
    layer: usize,
    x: Tensor,
    mask: Tensor,
    cache: Option<SteppingKeyValueCache>,
    t: int,
    m: Meaning<R>,
    p: Pass<R>,
)
    requires
        0 <= t < value(x, m, p).len(),
        ({
            let normed = apply1(Op::RmsNorm(Site::Layer(layer, LayerPart::InputLayernorm)), x);
            let h = apply2(Op::Add, x, l.self_attn.output(layer, normed, mask, cache));
            let normed_post = apply1(
                Op::RmsNorm(Site::Layer(layer, LayerPart::PostAttentionLayernorm)),
                h,
            );
            is_neutral(m, value(l.mlp.output(layer, normed_post), m, p)[t])
        }),
    ensures
        ({
            let normed = apply1(Op::RmsNorm(Site::Layer(layer, LayerPart::InputLayernorm)), x);
            let added = value(l.self_attn.output(layer, normed, mask, cache), m, p)[t];
            let came_in = value(x, m, p)[t];
            let out = value(l.output(layer, x, mask, cache), m, p)[t];
            &&& out == row2(m, Op::Add, came_in, added)
            &&& is_neutral(m, added) ==> out == came_in
        }),
{
    law_a_layer_adds_twice(l, layer, x, mask, cache, t, m, p);
}

/// The hidden states are the final normalisation of what the last layer gives.
/// The first layer takes the embedded token ids, and each other layer what the
/// one before it gives. All layers work under one mask, each with its own cache.
pub proof fn law_layers_follow_each_other(
    lm: Glm4MoeLiteCausalLM,
    mask_given: bool,
    given: Seq<Option<SteppingKeyValueCache>>,
)
    ensures
        ({
            let layers = lm.model.layers@;
            let n = layers.len();
            let ids = apply0(Op::Inputs);
            let mask = if mask_given {
                apply0(Op::GivenMask)
            } else {
                Tensor {
                    op: Op::CreateMask,
                    args: seq![apply1(Op::Embed, ids)] + Seq::new(
                        given.len(),
                        |i: int| apply0(Op::GivenCache { layer: i as usize, cache: given[i] }),
                    ),
                }
            };
            exists|h: Seq<Tensor>|
                {
                    &&& #[trigger] h.len() == n + 1
                    &&& h[0] == apply1(Op::Embed, ids)
                    &&& forall|i: int|
                        0 <= i < n ==> #[trigger] h[i + 1] == layers[i].output(
                            i as usize,
                            h[i],
                            mask,
                            if given.len() == 0 {
                                Some(SteppingKeyValueCache { offset: 0 })
                            } else {
                                given[i]
                            },
                        )
                    &&& lm.hidden(mask_given, given) == apply1(
                        Op::RmsNorm(Site::FinalNorm),
                        h[n as int],
                    )
                }
        }),
{
    let layers = lm.model.layers@;
    let n = layers.len();
    let caches = caches_in_use(given, n);
    let x = Glm4MoeLiteCausalLM::embedded();
    let mask = Glm4MoeLiteCausalLM::mask_in_use(mask_given, given);
    let h = Seq::new((n + 1) as nat, |i: int| stack_output(layers, caches, x, mask, i as nat));
    let created = seq![x] + Seq::new(
        given.len(),
        |i: int| apply0(Op::GivenCache { layer: i as usize, cache: given[i] }),
    );
    assert(!mask_given ==> mask.args =~= created);
    assert(h.len() == n + 1);
    assert forall|i: int| 0 <= i < n implies #[trigger] h[i + 1] == layers[i].output(
        i as usize,
        h[i],
        mask,
        if given.len() == 0 {
            Some(SteppingKeyValueCache { offset: 0 })
        } else {
            given[i]
        },
    ) by {
        assert(h[i + 1] == stack_output(layers, caches, x, mask, (i + 1) as nat));
    }
}

/// A model with one more layer behind its last one gives what that layer makes of
/// what the model without it hands to the final normalisation.
pub proof fn law_a_further_layer_takes_what_the_others_give(
    lm: Glm4MoeLiteCausalLM,
    longer: Glm4MoeLiteCausalLM,
    given: Seq<Option<SteppingKeyValueCache>>,
)
    requires
        longer.model.layers@.len() > 0,
        lm.model.layers@ == longer.model.layers@.drop_last(),
        given.len() == longer.model.layers@.len(),
    ensures
        ({
            let before = lm.hidden(true, given.drop_last());
            let after = longer.hidden(true, given);
            &&& before.op == Op::RmsNorm(Site::FinalNorm)
            &&& after.op == Op::RmsNorm(Site::FinalNorm)
            &&& after.args == seq![
                longer.model.layers@.last().output(
                    (given.len() - 1) as usize,
                    before.args[0],
                    apply0(Op::GivenMask),
                    given.last(),
                ),
            ]
            &&& lm.model.layers@.len() == 0 ==> before.args[0] == apply1(
                Op::Embed,
                apply0(Op::Inputs),
            )
        }),
{
    let layers = longer.model.layers@;
    let fewer = lm.model.layers@;
    let i = fewer.len();
    let x = Glm4MoeLiteCausalLM::embedded();
    let mask = apply0(Op::GivenMask);
    lemma_stack_prefix(fewer, layers, caches_in_use(given.drop_last(), i), given, x, mask, i);
}

/// What the first layers make of something depends on them and their caches
/// alone.
proof fn lemma_stack_prefix(
    fewer: Seq<Glm4MoeLiteDecoderLayer>,
    layers: Seq<Glm4MoeLiteDecoderLayer>,
    some: Seq<Option<SteppingKeyValueCache>>,
    caches: Seq<Option<SteppingKeyValueCache>>,
    x: Tensor,
    mask: Tensor,
    k: nat,
)
    requires
        forall|i: int| 0 <= i < k ==> fewer[i] == layers[i],
        forall|i: int| 0 <= i < k ==> some[i] == caches[i],
    ensures
        stack_output(fewer, some, x, mask, k) == stack_output(layers, caches, x, mask, k),
    decreases k,
{
    if k > 0 {
        lemma_stack_prefix(fewer, layers, some, caches, x, mask, (k - 1) as nat);
    }
}

/// The scores of a position come out of its hidden states: by the output
/// projection where the model has one, and by the embedding where it has none.
pub proof fn law_scores_come_out_of_the_hidden_states<R>(
    lm: Glm4MoeLiteCausalLM,
    h: Tensor,
    t: int,
    m: Meaning<R>,
    p: Pass<R>,
)
    requires
        0 <= t < value(h, m, p).len(),
    ensures
        value(lm.logits(h), m, p).len() == value(h, m, p).len(),
        value(lm.logits(h), m, p)[t] == match lm.lm_head {
            Some(_) => row1(m, Op::QLinear(Site::LmHead), value(h, m, p)[t]),
            None => row1(m, Op::EmbedAsLinear, value(h, m, p)[t]),
        },
{
    lemma_row1(Op::QLinear(Site::LmHead), h, t, m, p);
    lemma_row1(Op::EmbedAsLinear, h, t, m, p);
}

/// Shared experts are added to what the block gives without them.
pub proof fn law_shared_experts_are_added<R>(
    b: Glm4MoeLiteMlpBlock,
    layer: usize,
    x: Tensor,
    t: int,
    m: Meaning<R>,
    p: Pass<R>,
)
    requires
        b.shared_experts is Some,
        0 <= t < value(x, m, p).len(),
    ensures
        ({
            let without = Glm4MoeLiteMlpBlock { shared_experts: None, ..b };
            value(b.moe_output(layer, x), m, p)[t] == row2(
                m,
                Op::Add,
                value(without.moe_output(layer, x), m, p)[t],
                value(SharedExperts::output(layer, x), m, p)[t],
            )
        }),
{
    let without = Glm4MoeLiteMlpBlock { shared_experts: None, ..b };
    law_a_token_is_routed_by_its_scores(b, layer, x, t, m, p);
    law_a_token_is_routed_by_its_scores(without, layer, x, t, m, p);
    law_dense_tokens_are_gated(b, layer, x, t, m, p);
}

} // verus!
