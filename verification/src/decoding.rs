//! Decoding a sequence in one pass or in several: each pass goes on where the
//! caches stand, and what comes out is the same.
use vstd::prelude::*;

use crate::attention::{feature_slice, head_slice, leading, to_heads, Glm4MoeLiteAttention};
use crate::cache::{has_room, start_of, SteppingKeyValueCache};
use crate::decoder::Glm4MoeLiteDecoderLayer;
use crate::laws::{
    law_caches_carry_over, law_passes_add_up, lemma_complete_stack_caches, lemma_complete_up_to,
};
use crate::meaning::{
    law_routed_tokens_are_independent, lemma_gated_picks, lemma_rowwise1, lemma_rowwise2,
    lemma_value1, lemma_value4, picked, picks, positions, value, window, within, Held, Meaning,
    Pass,
};
use crate::mlp::Glm4MoeLiteMlpBlock;
use crate::model::{caches_in_use, stack_output, Glm4MoeLiteCausalLM};
use crate::tape::{apply0, apply1, apply2, apply4, LayerPart, Op, Site, Span, Tensor};

verus! {

proof fn lemma_to_heads_picks<R>(
    u: Tensor,
    x: Tensor,
    w: Tensor,
    y: Tensor,
    heads: i32,
    width: i32,
    n: nat,
    chosen: Seq<int>,
    m: Meaning<R>,
    p: Pass<R>,
    q: Pass<R>,
)
    requires
        within(chosen, n),
        picks(value(u, m, p), value(w, m, q), n, chosen),
        picks(value(x, m, p), value(y, m, q), n, chosen),
    ensures
        picks(
            value(to_heads(u, x, heads, width), m, p),
            value(to_heads(w, y, heads, width), m, q),
            n,
            chosen,
        ),
{
    let op = Op::SplitHeads { heads, width };
    lemma_rowwise1(Op::LeadingDims, x, y, n, chosen, m, p, q);
    lemma_rowwise2(op, u, leading(x), w, leading(y), n, chosen, m, p, q);
    lemma_rowwise1(
        Op::SwapHeads,
        apply2(op, u, leading(x)),
        apply2(op, w, leading(y)),
        n,
        chosen,
        m,
        p,
        q,
    );
}

/// Rotated at the positions where they stand, the rows of a window are those of
/// the whole.
proof fn lemma_rotated_picks<R>(
    a: Glm4MoeLiteAttention,
    x: Tensor,
    y: Tensor,
    c: Option<SteppingKeyValueCache>,
    d: Option<SteppingKeyValueCache>,
    n: nat,
    from: int,
    to: int,
    m: Meaning<R>,
    p: Pass<R>,
    q: Pass<R>,
)
    requires
        0 <= from <= to <= n,
        start_of(d) == start_of(c) + from,
        picks(value(x, m, p), value(y, m, q), n, window(from, to)),
    ensures
        picks(value(a.rotated(x, c), m, p), value(a.rotated(y, d), m, q), n, window(from, to)),
{
    let width = a.qk_rope_head_dim;
    let base = a.rope_base;
    lemma_value1(Op::Rope { width, base, offset: start_of(c) }, x, m, p);
    lemma_value1(Op::Rope { width, base, offset: start_of(d) }, y, m, q);
    assert(value(a.rotated(y, d), m, q) =~= picked(
        value(a.rotated(x, c), m, p),
        window(from, to),
    ));
}

/// The queries of a window of positions are those of the whole at these
/// positions, and so are its keys and values.
proof fn lemma_heads_pick<R>(
    a: Glm4MoeLiteAttention,
    layer: usize,
    x: Tensor,
    y: Tensor,
    c: Option<SteppingKeyValueCache>,
    d: Option<SteppingKeyValueCache>,
    n: nat,
    from: int,
    to: int,
    m: Meaning<R>,
    p: Pass<R>,
    q: Pass<R>,
)
    requires
        0 <= from <= to <= n,
        start_of(d) == start_of(c) + from,
        picks(value(x, m, p), value(y, m, q), n, window(from, to)),
    ensures
        picks(
            value(a.queries(layer, x, c), m, p),
            value(a.queries(layer, y, d), m, q),
            n,
            window(from, to),
        ),
        picks(
            value(a.new_keys(layer, x, c), m, p),
            value(a.new_keys(layer, y, d), m, q),
            n,
            window(from, to),
        ),
        picks(
            value(a.new_values(layer, x), m, p),
            value(a.new_values(layer, y), m, q),
            n,
            window(from, to),
        ),
{
    let w = window(from, to);
    let nope = a.qk_nope_head_dim;
    let plain_op = Op::Slice { rank: 4, axis: 3, span: Span::To(nope) };
    let rest_op = Op::Slice { rank: 4, axis: 3, span: Span::From(nope) };

    // The queries.
    if a.use_compressed_query {
        let op_a = Op::QLinear(Site::Layer(layer, LayerPart::QAProj));
        let op_n = Op::RmsNorm(Site::Layer(layer, LayerPart::QALayernorm));
        let op_b = Op::QLinear(Site::Layer(layer, LayerPart::QBProj));
        lemma_rowwise1(op_a, x, y, n, w, m, p, q);
        lemma_rowwise1(op_n, apply1(op_a, x), apply1(op_a, y), n, w, m, p, q);
        lemma_rowwise1(
            op_b,
            apply1(op_n, apply1(op_a, x)),
            apply1(op_n, apply1(op_a, y)),
            n,
            w,
            m,
            p,
            q,
        );
    } else {
        lemma_rowwise1(Op::QLinear(Site::Layer(layer, LayerPart::QProj)), x, y, n, w, m, p, q);
    }
    lemma_to_heads_picks(
        a.projected_query(layer, x),
        x,
        a.projected_query(layer, y),
        y,
        a.num_heads,
        (a.qk_nope_head_dim + a.qk_rope_head_dim) as i32,
        n,
        w,
        m,
        p,
        q,
    );
    let qx = a.head_queries(layer, x);
    let qy = a.head_queries(layer, y);
    lemma_rowwise1(plain_op, qx, qy, n, w, m, p, q);
    lemma_rowwise1(rest_op, qx, qy, n, w, m, p, q);
    let px = head_slice(qx, Span::From(nope));
    let py = head_slice(qy, Span::From(nope));
    lemma_rotated_picks(a, px, py, c, d, n, from, to, m, p, q);
    lemma_rowwise2(
        Op::Concat,
        head_slice(qx, Span::To(nope)),
        a.rotated(px, c),
        head_slice(qy, Span::To(nope)),
        a.rotated(py, d),
        n,
        w,
        m,
        p,
        q,
    );

    // The compressed keys and values.
    let mqa_op = Op::QLinear(Site::Layer(layer, LayerPart::KvAProjWithMqa));
    lemma_rowwise1(mqa_op, x, y, n, w, m, p, q);
    let cx = a.compressed_kv(layer, x);
    let cy = a.compressed_kv(layer, y);
    let latent_op = Op::Slice { rank: 3, axis: 2, span: Span::To(a.kv_lora_rank) };
    let pe_op = Op::Slice { rank: 3, axis: 2, span: Span::From(a.kv_lora_rank) };
    lemma_rowwise1(latent_op, cx, cy, n, w, m, p, q);
    lemma_rowwise1(pe_op, cx, cy, n, w, m, p, q);

    // The shared rotary key, for all heads.
    lemma_to_heads_picks(
        feature_slice(cx, Span::From(a.kv_lora_rank)),
        x,
        feature_slice(cy, Span::From(a.kv_lora_rank)),
        y,
        1,
        a.qk_rope_head_dim,
        n,
        w,
        m,
        p,
        q,
    );
    let sx = a.shared_key(layer, x);
    let sy = a.shared_key(layer, y);
    lemma_rotated_picks(a, sx, sy, c, d, n, from, to, m, p, q);
    let broadcast_op = Op::BroadcastHeads { heads: a.num_heads, width: a.qk_rope_head_dim };
    lemma_rowwise1(Op::LeadingDims, x, y, n, w, m, p, q);
    lemma_rowwise2(
        broadcast_op,
        a.rotated(sx, c),
        leading(x),
        a.rotated(sy, d),
        leading(y),
        n,
        w,
        m,
        p,
        q,
    );

    // The plain keys and the values.
    let lx = feature_slice(cx, Span::To(a.kv_lora_rank));
    let ly = feature_slice(cy, Span::To(a.kv_lora_rank));
    let norm_op = Op::RmsNorm(Site::Layer(layer, LayerPart::KvALayernorm));
    let b_op = Op::QLinear(Site::Layer(layer, LayerPart::KvBProj));
    lemma_rowwise1(norm_op, lx, ly, n, w, m, p, q);
    lemma_rowwise1(b_op, apply1(norm_op, lx), apply1(norm_op, ly), n, w, m, p, q);
    lemma_to_heads_picks(
        apply1(b_op, apply1(norm_op, lx)),
        x,
        apply1(b_op, apply1(norm_op, ly)),
        y,
        a.num_heads,
        (-1) as i32,
        n,
        w,
        m,
        p,
        q,
    );
    let kx = a.head_kv(layer, x);
    let ky = a.head_kv(layer, y);
    lemma_rowwise1(plain_op, kx, ky, n, w, m, p, q);
    lemma_rowwise1(rest_op, kx, ky, n, w, m, p, q);
    lemma_rowwise2(
        Op::Concat,
        head_slice(kx, Span::To(nope)),
        apply2(broadcast_op, a.rotated(sx, c), leading(x)),
        head_slice(ky, Span::To(nope)),
        apply2(broadcast_op, a.rotated(sy, d), leading(y)),
        n,
        w,
        m,
        p,
        q,
    );
}

/// The keys and values that an attention attends to: with a cache, all that the
/// cache holds behind the pass.
pub open spec fn fetched<R>(
    a: Glm4MoeLiteAttention,
    layer: usize,
    x: Tensor,
    cache: Option<SteppingKeyValueCache>,
    m: Meaning<R>,
    p: Pass<R>,
) -> Held<R> {
    Held {
        keys: value(a.keys(layer, x, cache), m, p),
        values: value(a.values(layer, x, cache), m, p),
    }
}

/// With a cache, what is attended to is what the cache holds and what the pass
/// hands it.
pub proof fn lemma_fetched<R>(
    a: Glm4MoeLiteAttention,
    layer: usize,
    x: Tensor,
    cache: Option<SteppingKeyValueCache>,
    m: Meaning<R>,
    p: Pass<R>,
)
    requires
        cache is Some,
    ensures
        fetched(a, layer, x, cache, m, p).keys == (p.held)(layer).keys + value(
            a.new_keys(layer, x, cache),
            m,
            p,
        ),
        fetched(a, layer, x, cache, m, p).values == (p.held)(layer).values + value(
            a.new_values(layer, x),
            m,
            p,
        ),
{
    reveal(value);
    let update = a.cache_update(layer, x, cache);
    assert(update.args[0] == a.new_keys(layer, x, cache));
    assert(update.args[1] == a.new_values(layer, x));
    assert(a.keys(layer, x, cache).args[0] == update);
    assert(a.values(layer, x, cache).args[0] == update);
}

/// What is attended to, ahead of the output projection.
spec fn attended(
    a: Glm4MoeLiteAttention,
    layer: usize,
    x: Tensor,
    mask: Tensor,
    cache: Option<SteppingKeyValueCache>,
) -> Tensor {
    apply4(
        Op::Attend { head_dim: a.head_dim },
        a.queries(layer, x, cache),
        a.keys(layer, x, cache),
        a.values(layer, x, cache),
        mask,
    )
}

proof fn lemma_output_picks<R>(
    a: Glm4MoeLiteAttention,
    layer: usize,
    x: Tensor,
    y: Tensor,
    mask: Tensor,
    mask_y: Tensor,
    c: Option<SteppingKeyValueCache>,
    d: Option<SteppingKeyValueCache>,
    n: nat,
    chosen: Seq<int>,
    m: Meaning<R>,
    p: Pass<R>,
    q: Pass<R>,
)
    requires
        within(chosen, n),
        picks(value(x, m, p), value(y, m, q), n, chosen),
        picks(
            value(attended(a, layer, x, mask, c), m, p),
            value(attended(a, layer, y, mask_y, d), m, q),
            n,
            chosen,
        ),
    ensures
        picks(
            value(a.output(layer, x, mask, c), m, p),
            value(a.output(layer, y, mask_y, d), m, q),
            n,
            chosen,
        ),
{
    reveal(Glm4MoeLiteAttention::output);
    let ax = attended(a, layer, x, mask, c);
    let ay = attended(a, layer, y, mask_y, d);
    lemma_rowwise1(Op::SwapHeads, ax, ay, n, chosen, m, p, q);
    lemma_rowwise1(Op::LeadingDims, x, y, n, chosen, m, p, q);
    let sx = apply1(Op::SwapHeads, ax);
    let sy = apply1(Op::SwapHeads, ay);
    lemma_rowwise2(Op::MergeHeads, sx, leading(x), sy, leading(y), n, chosen, m, p, q);
    lemma_rowwise1(
        Op::QLinear(Site::Layer(layer, LayerPart::OProj)),
        apply2(Op::MergeHeads, sx, leading(x)),
        apply2(Op::MergeHeads, sy, leading(y)),
        n,
        chosen,
        m,
        p,
        q,
    );
}

/// Of `n` positions, the first `first` see nothing of the others, behind what a
/// cache holds: under their rows of the mask for all positions they attend as
/// they do to the first positions alone, under their rows of the other mask.
pub open spec fn hides_rest<R>(
    m: Meaning<R>,
    held: Held<R>,
    mask: Seq<R>,
    first_mask: Seq<R>,
    first: int,
    n: nat,
) -> bool {
    forall|head_dim: i16, r: R, k: Seq<R>, v: Seq<R>, t: int|
        0 <= t < first && k.len() == n && v.len() == n ==> #[trigger] (m.attend)(
            head_dim,
            r,
            held.keys + k,
            held.values + v,
            mask[t],
        ) == (m.attend)(
            head_dim,
            r,
            held.keys + k.take(first),
            held.values + v.take(first),
            first_mask[t],
        )
}

/// Of `n` positions, those behind the first `first` have in one mask the rows
/// that they have in the mask for all positions.
pub open spec fn shows_rest<R>(mask: Seq<R>, rest_mask: Seq<R>, first: int, n: nat) -> bool {
    forall|t: int| 0 <= t < n - first ==> #[trigger] rest_mask[t] == mask[first + t]
}

/// The first positions of a sequence, in a pass of their own, come out as they do
/// in a pass over the whole sequence, if the mask hides the others from them.
pub proof fn law_attention_looks_back<R>(
    a: Glm4MoeLiteAttention,
    layer: usize,
    x: Tensor,
    x1: Tensor,
    mask: Tensor,
    mask1: Tensor,
    cache: Option<SteppingKeyValueCache>,
    first: i32,
    m: Meaning<R>,
    p: Pass<R>,
    p1: Pass<R>,
)
    requires
        cache is Some,
        0 <= first <= value(x, m, p).len(),
        value(x1, m, p1) == value(x, m, p).take(first as int),
        (p1.held)(layer) == (p.held)(layer),
        hides_rest(
            m,
            (p.held)(layer),
            value(mask, m, p),
            value(mask1, m, p1),
            first as int,
            value(x, m, p).len(),
        ),
    ensures
        value(a.output(layer, x, mask, cache), m, p).len() == value(x, m, p).len(),
        value(a.output(layer, x1, mask1, cache), m, p1) == value(
            a.output(layer, x, mask, cache),
            m,
            p,
        ).take(first as int),
{
    let n = value(x, m, p).len();
    let w = window(0, first as int);
    assert(value(x1, m, p1) =~= picked(value(x, m, p), w));
    lemma_heads_pick(a, layer, x, x1, cache, cache, n, 0, first as int, m, p, p1);
    lemma_fetched(a, layer, x, cache, m, p);
    lemma_fetched(a, layer, x1, cache, m, p1);
    let k = value(a.new_keys(layer, x, cache), m, p);
    let v = value(a.new_values(layer, x), m, p);
    assert(picked(k, w) =~= k.take(first as int));
    assert(picked(v, w) =~= v.take(first as int));
    let op = Op::Attend { head_dim: a.head_dim };
    lemma_value4(
        op,
        a.queries(layer, x, cache),
        a.keys(layer, x, cache),
        a.values(layer, x, cache),
        mask,
        m,
        p,
    );
    lemma_value4(
        op,
        a.queries(layer, x1, cache),
        a.keys(layer, x1, cache),
        a.values(layer, x1, cache),
        mask1,
        m,
        p1,
    );
    assert(value(attended(a, layer, x1, mask1, cache), m, p1) =~= picked(
        value(attended(a, layer, x, mask, cache), m, p),
        w,
    ));
    lemma_output_picks(a, layer, x, x1, mask, mask1, cache, cache, n, w, m, p, p1);
    let out = value(a.output(layer, x, mask, cache), m, p);
    assert(picked(out, w) =~= out.take(first as int));
}

/// The other positions of a sequence, in a second pass, come out as they do in a
/// pass over the whole sequence, if the cache has taken up the first positions
/// in between. The second pass attends to the same keys and values as the pass
/// over the whole sequence, and leaves the cache at the same position.
pub proof fn law_attention_goes_on<R>(
    a: Glm4MoeLiteAttention,
    layer: usize,
    x: Tensor,
    x1: Tensor,
    x2: Tensor,
    mask: Tensor,
    mask2: Tensor,
    cache: Option<SteppingKeyValueCache>,
    first: i32,
    m: Meaning<R>,
    p: Pass<R>,
    p1: Pass<R>,
    p2: Pass<R>,
)
    requires
        a.missing() is None,
        cache is Some,
        0 <= first <= value(x, m, p).len(),
        has_room(cache, first as int),
        has_room(cache, value(x, m, p).len() as int),
        value(x1, m, p1) == value(x, m, p).take(first as int),
        value(x2, m, p2) == value(x, m, p).skip(first as int),
        (p1.held)(layer) == (p.held)(layer),
        (p2.held)(layer) == fetched(a, layer, x1, cache, m, p1),
        shows_rest(
            value(mask, m, p),
            value(mask2, m, p2),
            first as int,
            value(x, m, p).len(),
        ),
    ensures
        ({
            let n = value(x, m, p).len();
            let between = a.cache_left(cache, first as int);
            let whole = value(a.output(layer, x, mask, cache), m, p);
            &&& whole.len() == n
            &&& value(a.output(layer, x2, mask2, between), m, p2) == whole.skip(first as int)
            &&& fetched(a, layer, x2, between, m, p2) == fetched(a, layer, x, cache, m, p)
            &&& a.cache_left(between, n - first) == a.cache_left(cache, n as int)
        }),
{
    let n = value(x, m, p).len();
    let between = a.cache_left(cache, first as int);
    let w1 = window(0, first as int);
    let w2 = window(first as int, n as int);
    assert(value(x1, m, p1) =~= picked(value(x, m, p), w1));
    assert(value(x2, m, p2) =~= picked(value(x, m, p), w2));
    lemma_heads_pick(a, layer, x, x1, cache, cache, n, 0, first as int, m, p, p1);
    lemma_heads_pick(a, layer, x, x2, cache, between, n, first as int, n as int, m, p, p2);
    lemma_fetched(a, layer, x, cache, m, p);
    lemma_fetched(a, layer, x1, cache, m, p1);
    lemma_fetched(a, layer, x2, between, m, p2);
    let k = value(a.new_keys(layer, x, cache), m, p);
    let v = value(a.new_values(layer, x), m, p);
    let held = (p.held)(layer);
    assert((held.keys + picked(k, w1)) + picked(k, w2) =~= held.keys + k);
    assert((held.values + picked(v, w1)) + picked(v, w2) =~= held.values + v);
    let op = Op::Attend { head_dim: a.head_dim };
    lemma_value4(
        op,
        a.queries(layer, x, cache),
        a.keys(layer, x, cache),
        a.values(layer, x, cache),
        mask,
        m,
        p,
    );
    lemma_value4(
        op,
        a.queries(layer, x2, between),
        a.keys(layer, x2, between),
        a.values(layer, x2, between),
        mask2,
        m,
        p2,
    );
    assert(value(attended(a, layer, x2, mask2, between), m, p2) =~= picked(
        value(attended(a, layer, x, mask, cache), m, p),
        w2,
    ));
    lemma_output_picks(a, layer, x, x2, mask, mask2, cache, between, n, w2, m, p, p2);
    let out = value(a.output(layer, x, mask, cache), m, p);
    assert(picked(out, w2) =~= out.skip(first as int));
}

proof fn lemma_mlp_picks<R>(
    b: Glm4MoeLiteMlpBlock,
    layer: usize,
    x: Tensor,
    y: Tensor,
    n: nat,
    chosen: Seq<int>,
    m: Meaning<R>,
    p: Pass<R>,
    q: Pass<R>,
)
    requires
        within(chosen, n),
        picks(value(x, m, p), value(y, m, q), n, chosen),
    ensures
        picks(value(b.output(layer, x), m, p), value(b.output(layer, y), m, q), n, chosen),
{
    reveal(Glm4MoeLiteMlpBlock::output);
    if b.is_moe {
        law_routed_tokens_are_independent(b, layer, x, y, chosen, m, p, q);
    } else {
        lemma_gated_picks(
            Op::QLinear(Site::Layer(layer, LayerPart::DenseGateProj)),
            Op::QLinear(Site::Layer(layer, LayerPart::DenseUpProj)),
            Op::QLinear(Site::Layer(layer, LayerPart::DenseDownProj)),
            x,
            y,
            n,
            chosen,
            m,
            p,
            q,
        );
    }
}

/// What the attention of a layer takes.
pub open spec fn attention_input(layer: usize, x: Tensor) -> Tensor {
    apply1(Op::RmsNorm(Site::Layer(layer, LayerPart::InputLayernorm)), x)
}

proof fn lemma_layer_picks<R>(
    l: Glm4MoeLiteDecoderLayer,
    layer: usize,
    x: Tensor,
    y: Tensor,
    mask: Tensor,
    mask_y: Tensor,
    c: Option<SteppingKeyValueCache>,
    d: Option<SteppingKeyValueCache>,
    n: nat,
    chosen: Seq<int>,
    m: Meaning<R>,
    p: Pass<R>,
    q: Pass<R>,
)
    requires
        within(chosen, n),
        picks(value(x, m, p), value(y, m, q), n, chosen),
        picks(
            value(l.self_attn.output(layer, attention_input(layer, x), mask, c), m, p),
            value(l.self_attn.output(layer, attention_input(layer, y), mask_y, d), m, q),
            n,
            chosen,
        ),
    ensures
        picks(
            value(l.output(layer, x, mask, c), m, p),
            value(l.output(layer, y, mask_y, d), m, q),
            n,
            chosen,
        ),
{
    reveal(Glm4MoeLiteDecoderLayer::output);
    lemma_rowwise2(
        Op::Add,
        x,
        l.self_attn.output(layer, attention_input(layer, x), mask, c),
        y,
        l.self_attn.output(layer, attention_input(layer, y), mask_y, d),
        n,
        chosen,
        m,
        p,
        q,
    );
    let hx = l.attended(layer, x, mask, c);
    let hy = l.attended(layer, y, mask_y, d);
    let post_op = Op::RmsNorm(Site::Layer(layer, LayerPart::PostAttentionLayernorm));
    lemma_rowwise1(post_op, hx, hy, n, chosen, m, p, q);
    let ix = l.block_input(layer, x, mask, c);
    let iy = l.block_input(layer, y, mask_y, d);
    lemma_mlp_picks(l.mlp, layer, ix, iy, n, chosen, m, p, q);
    lemma_rowwise2(
        Op::Add,
        hx,
        l.mlp.output(layer, ix),
        hy,
        l.mlp.output(layer, iy),
        n,
        chosen,
        m,
        p,
        q,
    );
}

/// What the cache of layer `i` holds behind a pass.
pub open spec fn held_after<R>(
    lm: Glm4MoeLiteCausalLM,
    mask_given: bool,
    given: Seq<Option<SteppingKeyValueCache>>,
    i: int,
    m: Meaning<R>,
    p: Pass<R>,
) -> Held<R> {
    let layers = lm.model.layers@;
    let caches = caches_in_use(given, layers.len());
    let x = stack_output(
        layers,
        caches,
        Glm4MoeLiteCausalLM::embedded(),
        Glm4MoeLiteCausalLM::mask_in_use(mask_given, given),
        i as nat,
    );
    fetched(layers[i].self_attn, i as usize, attention_input(i as usize, x), caches[i], m, p)
}

/// A pass over a sequence, and two passes over its first `first` positions and
/// over the others. Every layer has a cache. The second of the two finds in the
/// caches what the first one left there. The masks, given or not, let each
/// position see as much in the two passes as in the one.
pub open spec fn in_two_passes<R>(
    lm: Glm4MoeLiteCausalLM,
    given: Seq<Option<SteppingKeyValueCache>>,
    first: i32,
    masks_given: (bool, bool, bool),
    m: Meaning<R>,
    p: Pass<R>,
    p1: Pass<R>,
    p2: Pass<R>,
) -> bool {
    let n = p.inputs.len();
    let layers = lm.model.layers@;
    let left = lm.caches_left(given, first as int);
    let mask = value(Glm4MoeLiteCausalLM::mask_in_use(masks_given.0, given), m, p);
    let mask1 = value(Glm4MoeLiteCausalLM::mask_in_use(masks_given.1, given), m, p1);
    let mask2 = value(Glm4MoeLiteCausalLM::mask_in_use(masks_given.2, left), m, p2);
    &&& lm.failure(given) is None
    &&& forall|i: int| 0 <= i < given.len() ==> (#[trigger] given[i]) is Some
    &&& 0 <= first <= n
    &&& n <= i32::MAX
    &&& lm.has_room(given, n as int)
    &&& lm.has_room(given, first as int)
    &&& p1.inputs == p.inputs.take(first as int)
    &&& p2.inputs == p.inputs.skip(first as int)
    &&& forall|i: int|
        0 <= i < layers.len() ==> #[trigger] (p1.held)(i as usize) == (p.held)(i as usize)
    &&& forall|i: int|
        0 <= i < layers.len() ==> #[trigger] (p2.held)(i as usize) == held_after(
            lm,
            masks_given.1,
            given,
            i,
            m,
            p1,
        )
    &&& forall|i: int|
        0 <= i < layers.len() ==> hides_rest(
            m,
            #[trigger] (p.held)(i as usize),
            mask,
            mask1,
            first as int,
            n,
        )
    &&& shows_rest(mask, mask2, first as int, n)
}

proof fn lemma_stack_in_two_passes<R>(
    lm: Glm4MoeLiteCausalLM,
    given: Seq<Option<SteppingKeyValueCache>>,
    first: i32,
    masks_given: (bool, bool, bool),
    k: nat,
    m: Meaning<R>,
    p: Pass<R>,
    p1: Pass<R>,
    p2: Pass<R>,
)
    requires
        in_two_passes(lm, given, first, masks_given, m, p, p1, p2),
        k <= lm.model.layers@.len(),
    ensures
        ({
            let n = p.inputs.len();
            let layers = lm.model.layers@;
            let caches = caches_in_use(given, layers.len());
            let left = lm.caches_left(given, first as int);
            let between = caches_in_use(left, layers.len());
            let x = Glm4MoeLiteCausalLM::embedded();
            let mask = Glm4MoeLiteCausalLM::mask_in_use(masks_given.0, given);
            let mask1 = Glm4MoeLiteCausalLM::mask_in_use(masks_given.1, given);
            let mask2 = Glm4MoeLiteCausalLM::mask_in_use(masks_given.2, left);
            let whole = value(stack_output(layers, caches, x, mask, k), m, p);
            &&& whole.len() == n
            &&& value(stack_output(layers, caches, x, mask1, k), m, p1) == whole.take(first as int)
            &&& value(stack_output(layers, between, x, mask2, k), m, p2) == whole.skip(first as int)
            &&& forall|i: int|
                0 <= i < k ==> #[trigger] held_after(lm, masks_given.2, left, i, m, p2)
                    == held_after(lm, masks_given.0, given, i, m, p)
        }),
    decreases k,
{
    let n = p.inputs.len();
    let layers = lm.model.layers@;
    let caches = caches_in_use(given, layers.len());
    let left = lm.caches_left(given, first as int);
    let between = caches_in_use(left, layers.len());
    let x = Glm4MoeLiteCausalLM::embedded();
    let mask = Glm4MoeLiteCausalLM::mask_in_use(masks_given.0, given);
    let mask1 = Glm4MoeLiteCausalLM::mask_in_use(masks_given.1, given);
    let mask2 = Glm4MoeLiteCausalLM::mask_in_use(masks_given.2, left);
    let w1 = window(0, first as int);
    let w2 = window(first as int, n as int);
    if k == 0 {
        let ids = apply0(Op::Inputs);
        assert(value(ids, m, p) == p.inputs && value(ids, m, p1) == p1.inputs && value(ids, m, p2)
            == p2.inputs) by {
            reveal(value);
        }
        assert(p1.inputs =~= picked(p.inputs, w1));
        assert(p2.inputs =~= picked(p.inputs, w2));
        lemma_rowwise1(Op::Embed, ids, ids, n, w1, m, p, p1);
        lemma_rowwise1(Op::Embed, ids, ids, n, w2, m, p, p2);
        let whole = value(x, m, p);
        assert(picked(whole, w1) =~= whole.take(first as int));
        assert(picked(whole, w2) =~= whole.skip(first as int));
    } else {
        let i = (k - 1) as nat;
        let layer = i as usize;
        lemma_stack_in_two_passes(lm, given, first, masks_given, i, m, p, p1, p2);
        law_caches_carry_over(lm, given, first);
        lemma_complete_stack_caches(layers, caches, first as int, layers.len());
        lemma_complete_up_to(layers, i, layers.len());
        let l = layers[i as int];
        let a = l.self_attn;
        let cache = caches[i as int];
        assert(cache is Some);
        assert(l.has_room(cache, n as int));
        assert(l.has_room(cache, first as int));
        assert(between[i as int] == a.cache_left(cache, first as int));
        let h = stack_output(layers, caches, x, mask, i);
        let h1 = stack_output(layers, caches, x, mask1, i);
        let h2 = stack_output(layers, between, x, mask2, i);
        let hv = value(h, m, p);
        assert(hv.take(first as int) =~= picked(hv, w1));
        assert(hv.skip(first as int) =~= picked(hv, w2));
        let norm_op = Op::RmsNorm(Site::Layer(layer, LayerPart::InputLayernorm));
        lemma_rowwise1(norm_op, h, h1, n, w1, m, p, p1);
        lemma_rowwise1(norm_op, h, h2, n, w2, m, p, p2);
        let u = attention_input(layer, h);
        let u1 = attention_input(layer, h1);
        let u2 = attention_input(layer, h2);
        let uv = value(u, m, p);
        assert(uv.take(first as int) =~= picked(uv, w1));
        assert(uv.skip(first as int) =~= picked(uv, w2));
        let at = i as int;
        assert((p1.held)(at as usize) == (p.held)(at as usize));
        assert((p2.held)(at as usize) == held_after(lm, masks_given.1, given, at, m, p1));
        law_attention_looks_back(a, layer, u, u1, mask, mask1, cache, first, m, p, p1);
        law_attention_goes_on(a, layer, u, u1, u2, mask, mask2, cache, first, m, p, p1, p2);
        let out = value(a.output(layer, u, mask, cache), m, p);
        assert(out.take(first as int) =~= picked(out, w1));
        assert(out.skip(first as int) =~= picked(out, w2));
        let cache2 = between[i as int];
        lemma_layer_picks(l, layer, h, h1, mask, mask1, cache, cache, n, w1, m, p, p1);
        lemma_layer_picks(l, layer, h, h2, mask, mask2, cache, cache2, n, w2, m, p, p2);
        let whole = value(l.output(layer, h, mask, cache), m, p);
        assert(picked(whole, w1) =~= whole.take(first as int));
        assert(picked(whole, w2) =~= whole.skip(first as int));
    }
}

/// A sequence comes out the same in one pass and in two, each of which works with
/// the caches that the one before it left: the hidden states of the two passes
/// are those of the one pass, and so are the scores behind the last position.
/// Afterwards the caches stand at the same positions and hold the same.
pub proof fn law_decoding_in_two_passes<R>(
    lm: Glm4MoeLiteCausalLM,
    given: Seq<Option<SteppingKeyValueCache>>,
    first: i32,
    masks_given: (bool, bool, bool),
    m: Meaning<R>,
    p: Pass<R>,
    p1: Pass<R>,
    p2: Pass<R>,
)
    requires
        in_two_passes(lm, given, first, masks_given, m, p, p1, p2),
    ensures
        ({
            let n = p.inputs.len();
            let left = lm.caches_left(given, first as int);
            let last_op = Glm4MoeLiteCausalLM::last_position_op();
            let hidden = lm.hidden(masks_given.0, given);
            let hidden1 = lm.hidden(masks_given.1, given);
            let hidden2 = lm.hidden(masks_given.2, left);
            let whole = value(hidden, m, p);
            &&& whole.len() == n
            &&& value(hidden1, m, p1) == whole.take(first as int)
            &&& value(hidden2, m, p2) == whole.skip(first as int)
            &&& first < n ==> value(lm.logits(apply1(last_op, hidden2)), m, p2) == value(
                lm.logits(apply1(last_op, hidden)),
                m,
                p,
            )
            &&& lm.caches_left(left, n - first) == lm.caches_left(given, n as int)
            &&& forall|i: int|
                0 <= i < lm.model.layers@.len() ==> #[trigger] held_after(
                    lm,
                    masks_given.2,
                    left,
                    i,
                    m,
                    p2,
                ) == held_after(lm, masks_given.0, given, i, m, p)
        }),
{
    let n = p.inputs.len();
    let layers = lm.model.layers@;
    let caches = caches_in_use(given, layers.len());
    let left = lm.caches_left(given, first as int);
    let between = caches_in_use(left, layers.len());
    let x = Glm4MoeLiteCausalLM::embedded();
    let mask = Glm4MoeLiteCausalLM::mask_in_use(masks_given.0, given);
    let mask1 = Glm4MoeLiteCausalLM::mask_in_use(masks_given.1, given);
    let mask2 = Glm4MoeLiteCausalLM::mask_in_use(masks_given.2, left);
    lemma_stack_in_two_passes(lm, given, first, masks_given, layers.len(), m, p, p1, p2);
    law_passes_add_up(lm, given, first, (n - first) as i32);
    let w1 = window(0, first as int);
    let w2 = window(first as int, n as int);
    let h = stack_output(layers, caches, x, mask, layers.len());
    let h1 = stack_output(layers, caches, x, mask1, layers.len());
    let h2 = stack_output(layers, between, x, mask2, layers.len());
    let hv = value(h, m, p);
    assert(hv.take(first as int) =~= picked(hv, w1));
    assert(hv.skip(first as int) =~= picked(hv, w2));
    let norm_op = Op::RmsNorm(Site::FinalNorm);
    lemma_rowwise1(norm_op, h, h1, n, w1, m, p, p1);
    lemma_rowwise1(norm_op, h, h2, n, w2, m, p, p2);
    let hidden = lm.hidden(masks_given.0, given);
    let hidden2 = lm.hidden(masks_given.2, left);
    let whole = value(hidden, m, p);
    assert(picked(whole, w1) =~= whole.take(first as int));
    assert(picked(whole, w2) =~= whole.skip(first as int));
    if first < n {
        let last_op = Glm4MoeLiteCausalLM::last_position_op();
        lemma_value1(last_op, hidden, m, p);
        lemma_value1(last_op, hidden2, m, p2);
        assert(positions(whole.skip(first as int), Span::From((-1) as i32)) =~= positions(
            whole,
            Span::From((-1) as i32),
        ));
        lemma_value1(lm.head_op(), apply1(last_op, hidden), m, p);
        lemma_value1(lm.head_op(), apply1(last_op, hidden2), m, p2);
    }
}

/// A layer gives one row for each row that it takes, and its cache takes up as
/// many keys and values.
proof fn lemma_layer_keeps_length<R>(
    l: Glm4MoeLiteDecoderLayer,
    layer: usize,
    x: Tensor,
    mask: Tensor,
    cache: Option<SteppingKeyValueCache>,
    m: Meaning<R>,
    p: Pass<R>,
)
    ensures
        ({
            let n = value(x, m, p).len();
            let held = (p.held)(layer);
            let after = fetched(l.self_attn, layer, attention_input(layer, x), cache, m, p);
            &&& value(l.output(layer, x, mask, cache), m, p).len() == n
            &&& cache is Some ==> after.keys.len() == held.keys.len() + n
            &&& cache is Some ==> after.values.len() == held.values.len() + n
        }),
{
    let a = l.self_attn;
    let n = value(x, m, p).len();
    let all = window(0, n as int);
    let u = attention_input(layer, x);
    assert(value(x, m, p) =~= picked(value(x, m, p), all));
    lemma_rowwise1(
        Op::RmsNorm(Site::Layer(layer, LayerPart::InputLayernorm)),
        x,
        x,
        n,
        all,
        m,
        p,
        p,
    );
    lemma_heads_pick(a, layer, u, u, cache, cache, n, 0, n as int, m, p, p);
    if cache is Some {
        lemma_fetched(a, layer, u, cache, m, p);
    }
    lemma_value4(
        Op::Attend { head_dim: a.head_dim },
        a.queries(layer, u, cache),
        a.keys(layer, u, cache),
        a.values(layer, u, cache),
        mask,
        m,
        p,
    );
    let seen = value(attended(a, layer, u, mask, cache), m, p);
    assert(seen =~= picked(seen, all));
    lemma_output_picks(a, layer, u, u, mask, mask, cache, cache, n, all, m, p, p);
    lemma_layer_picks(l, layer, x, x, mask, mask, cache, cache, n, all, m, p, p);
}

proof fn lemma_stack_keeps_length<R>(
    lm: Glm4MoeLiteCausalLM,
    mask: Tensor,
    caches: Seq<Option<SteppingKeyValueCache>>,
    k: nat,
    m: Meaning<R>,
    p: Pass<R>,
)
    ensures
        value(
            stack_output(
                lm.model.layers@,
                caches,
                Glm4MoeLiteCausalLM::embedded(),
                mask,
                k,
            ),
            m,
            p,
        ).len() == p.inputs.len(),
    decreases k,
{
    let x = Glm4MoeLiteCausalLM::embedded();
    let layers = lm.model.layers@;
    if k == 0 {
        lemma_value1(Op::Embed, apply0(Op::Inputs), m, p);
        assert(value(apply0(Op::Inputs), m, p) == p.inputs) by {
            reveal(value);
        }
    } else {
        let i = (k - 1) as nat;
        lemma_stack_keeps_length(lm, mask, caches, i, m, p);
        lemma_layer_keeps_length(
            layers[i as int],
            i as usize,
            stack_output(layers, caches, x, mask, i),
            mask,
            caches[i as int],
            m,
            p,
        );
    }
}

/// The caches hold the keys and values of as many positions as they say.
pub open spec fn caches_hold<R>(
    caches: Seq<Option<SteppingKeyValueCache>>,
    held: spec_fn(int) -> Held<R>,
) -> bool {
    forall|i: int|
        0 <= i < caches.len() ==> match #[trigger] caches[i] {
            Some(c) => {
                &&& held(i).keys.len() == c.offset
                &&& held(i).values.len() == c.offset
            },
            None => true,
        }
}

/// If the caches that a pass works with hold the keys and values of as many
/// positions as they say, so do the caches that it leaves.
pub proof fn law_caches_hold_what_they_say<R>(
    lm: Glm4MoeLiteCausalLM,
    mask_given: bool,
    given: Seq<Option<SteppingKeyValueCache>>,
    m: Meaning<R>,
    p: Pass<R>,
)
    requires
        lm.failure(given) is None,
        p.inputs.len() <= i32::MAX,
        lm.has_room(given, p.inputs.len() as int),
        caches_hold(caches_in_use(given, lm.model.layers@.len()), |i: int| (p.held)(i as usize)),
    ensures
        caches_hold(
            lm.caches_left(given, p.inputs.len() as int),
            |i: int| held_after(lm, mask_given, given, i, m, p),
        ),
{
    let n = p.inputs.len();
    let layers = lm.model.layers@;
    let caches = caches_in_use(given, layers.len());
    let left = lm.caches_left(given, n as int);
    let mask = Glm4MoeLiteCausalLM::mask_in_use(mask_given, given);
    let x = Glm4MoeLiteCausalLM::embedded();
    lemma_complete_stack_caches(layers, caches, n as int, layers.len());
    assert forall|i: int| 0 <= i < left.len() implies match #[trigger] left[i] {
        Some(c) => {
            &&& held_after(lm, mask_given, given, i, m, p).keys.len() == c.offset
            &&& held_after(lm, mask_given, given, i, m, p).values.len() == c.offset
        },
        None => true,
    } by {
        lemma_complete_up_to(layers, i as nat, layers.len());
        assert(layers[i].has_room(caches[i], n as int));
        lemma_stack_keeps_length(lm, mask, caches, i as nat, m, p);
        lemma_layer_keeps_length(
            layers[i],
            i as usize,
            stack_output(layers, caches, x, mask, i as nat),
            mask,
            caches[i],
            m,
            p,
        );
    }
}

} // verus!
