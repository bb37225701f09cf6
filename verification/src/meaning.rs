//! What recorded operations compute, position by position, and what follows for
//! routed blocks and for scores.
use vstd::prelude::*;

use crate::binary32::Binary32;
use crate::mlp::{gated, Glm4MoeLiteMlpBlock, SharedExperts};
use crate::model::Glm4MoeLiteCausalLM;
use crate::tape::{apply1, apply2, apply4, LayerPart, Op, Site, Span, Tensor};

verus! {

/// What the operations compute. A value has one row for each position; what a
/// row holds (a batch, heads, features) is left open, and so is what becomes of
/// it. How a backend rounds, and in which order it sums, is not part of this.
#[verifier::reject_recursive_types(R)]
pub struct Meaning<R> {
    /// An operation that acts on each position by itself, on the rows of its
    /// operands at one position.
    pub row: spec_fn(Op, Seq<R>) -> R,
    /// The rotary embedding of a row at a position: by width and base.
    pub rope: spec_fn(i32, Binary32, int, R) -> R,
    /// The attention of one row of queries over all keys and values, under one
    /// row of the mask: by the width of a head.
    pub attend: spec_fn(i16, R, Seq<R>, Seq<R>, R) -> R,
    /// The mask that hidden states and given caches call for, with one row for
    /// each position that looks.
    pub mask: spec_fn(Seq<R>, Seq<Op>) -> Seq<R>,
}

/// The keys and values in a cache.
pub struct Held<R> {
    pub keys: Seq<R>,
    pub values: Seq<R>,
}

/// What a forward pass starts with.
#[verifier::reject_recursive_types(R)]
pub struct Pass<R> {
    /// The token ids.
    pub inputs: Seq<R>,
    /// The mask, if one is given.
    pub mask: Seq<R>,
    /// What the cache of each layer holds.
    pub held: spec_fn(usize) -> Held<R>,
}

/// The positions of a value within a range of indices.
pub open spec fn positions<R>(a: Seq<R>, span: Span) -> Seq<R> {
    match span {
        Span::To(end) => if 0 <= end <= a.len() {
            a.take(end as int)
        } else {
            a
        },
        Span::From(start) => if 0 <= start <= a.len() {
            a.skip(start as int)
        } else if -a.len() <= start < 0 {
            a.skip(a.len() + start)
        } else {
            a
        },
    }
}

/// The operations that act on each position by itself.
pub open spec fn is_rowwise(op: Op) -> bool {
    match op {
        Op::Inputs
        | Op::GivenMask
        | Op::GivenCache { .. }
        | Op::CreateMask
        | Op::FillCaches { .. }
        | Op::Rope { .. }
        | Op::CacheUpdate { .. }
        | Op::FetchedKeys
        | Op::FetchedValues
        | Op::Attend { .. } => false,
        Op::Slice { rank, axis, span } => axis + 1 == rank,
        _ => true,
    }
}

/// What an operation makes of the values of its operands.
pub open spec fn outcome<R>(op: Op, vals: Seq<Seq<R>>, m: Meaning<R>) -> Seq<R> {
    if is_rowwise(op) {
        Seq::new(
            vals[0].len(),
            |t: int| (m.row)(op, vals.map_values(|v: Seq<R>| v[t])),
        )
    } else {
        match op {
            Op::Slice { rank, axis, span } => if rank == 3 && axis == 1 {
                positions(vals[0], span)
            } else {
                arbitrary()
            },
            Op::Rope { width, base, offset } => Seq::new(
                vals[0].len(),
                |t: int| (m.rope)(width, base, offset + t, vals[0][t]),
            ),
            Op::Attend { head_dim } => Seq::new(
                vals[0].len(),
                |t: int| (m.attend)(head_dim, vals[0][t], vals[1], vals[2], vals[3][t]),
            ),
            _ => arbitrary(),
        }
    }
}

/// The operations whose outcome depends on the values of their operands alone.
pub open spec fn is_pure(op: Op) -> bool {
    is_rowwise(op) || op is Slice || op is Rope || op is Attend
}

/// The value of a recorded result. A cache gives back what it holds with what it
/// was handed behind it.
#[verifier::opaque]
pub open spec fn value<R>(t: Tensor, m: Meaning<R>, p: Pass<R>) -> Seq<R>
    decreases t,
{
    match t.op {
        Op::Inputs => p.inputs,
        Op::GivenMask => p.mask,
        Op::CreateMask => if t.args.len() > 0 {
            (m.mask)(value(t.args[0], m, p), t.args.skip(1).map_values(|a: Tensor| a.op))
        } else {
            arbitrary()
        },
        Op::FetchedKeys | Op::FetchedValues => if t.args.len() == 1 && t.args[0].args.len() == 2 {
            match t.args[0].op {
                Op::CacheUpdate { layer, offset } => if t.op == Op::FetchedKeys {
                    (p.held)(layer).keys + value(t.args[0].args[0], m, p)
                } else {
                    (p.held)(layer).values + value(t.args[0].args[1], m, p)
                },
                _ => arbitrary(),
            }
        } else {
            arbitrary()
        },
        _ => if t.args.len() == 1 {
            outcome(t.op, seq![value(t.args[0], m, p)], m)
        } else if t.args.len() == 2 {
            outcome(t.op, seq![value(t.args[0], m, p), value(t.args[1], m, p)], m)
        } else if t.args.len() == 4 {
            outcome(
                t.op,
                seq![
                    value(t.args[0], m, p),
                    value(t.args[1], m, p),
                    value(t.args[2], m, p),
                    value(t.args[3], m, p),
                ],
                m,
            )
        } else {
            arbitrary()
        },
    }
}

/// The value of an operation on one operand.
pub proof fn lemma_value1<R>(op: Op, a: Tensor, m: Meaning<R>, p: Pass<R>)
    requires
        is_pure(op),
    ensures
        value(apply1(op, a), m, p) == outcome(op, seq![value(a, m, p)], m),
{
    reveal(value);
    let t = apply1(op, a);
    assert(t.args[0] == a);
}

/// The value of an operation on two operands.
pub proof fn lemma_value2<R>(op: Op, a: Tensor, b: Tensor, m: Meaning<R>, p: Pass<R>)
    requires
        is_pure(op),
    ensures
        value(apply2(op, a, b), m, p) == outcome(op, seq![value(a, m, p), value(b, m, p)], m),
{
    reveal(value);
    let t = apply2(op, a, b);
    assert(t.args[0] == a);
    assert(t.args[1] == b);
}

/// The value of an operation on four operands.
pub proof fn lemma_value4<R>(
    op: Op,
    a: Tensor,
    b: Tensor,
    c: Tensor,
    d: Tensor,
    m: Meaning<R>,
    p: Pass<R>,
)
    requires
        is_pure(op),
    ensures
        value(apply4(op, a, b, c, d), m, p) == outcome(
            op,
            seq![value(a, m, p), value(b, m, p), value(c, m, p), value(d, m, p)],
            m,
        ),
{
    reveal(value);
    let t = apply4(op, a, b, c, d);
    assert(t.args[0] == a);
    assert(t.args[1] == b);
    assert(t.args[2] == c);
    assert(t.args[3] == d);
}

/// The rows of a value at chosen positions, in the order in which they are
/// chosen.
pub open spec fn picked<R>(a: Seq<R>, chosen: Seq<int>) -> Seq<R> {
    Seq::new(chosen.len(), |t: int| a[chosen[t]])
}

/// Of `n` positions, all those chosen are among them.
pub open spec fn within(chosen: Seq<int>, n: nat) -> bool {
    forall|t: int| 0 <= t < chosen.len() ==> 0 <= #[trigger] chosen[t] < n
}

/// The positions from `from` up to `to`.
pub open spec fn window(from: int, to: int) -> Seq<int> {
    Seq::new((to - from) as nat, |t: int| from + t)
}

/// The first value has `n` rows, and the second one those at the chosen
/// positions.
pub open spec fn picks<R>(a: Seq<R>, b: Seq<R>, n: nat, chosen: Seq<int>) -> bool {
    a.len() == n && b == picked(a, chosen)
}

/// An operation that acts on each position by itself gives for chosen positions
/// what it gives there for all.
pub proof fn lemma_rowwise1<R>(
    op: Op,
    x: Tensor,
    y: Tensor,
    n: nat,
    chosen: Seq<int>,
    m: Meaning<R>,
    p: Pass<R>,
    q: Pass<R>,
)
    requires
        is_rowwise(op),
        within(chosen, n),
        picks(value(x, m, p), value(y, m, q), n, chosen),
    ensures
        picks(value(apply1(op, x), m, p), value(apply1(op, y), m, q), n, chosen),
{
    lemma_value1(op, x, m, p);
    lemma_value1(op, y, m, q);
    let a = seq![value(x, m, p)];
    let b = seq![value(y, m, q)];
    assert forall|t: int| 0 <= t < chosen.len() implies outcome(op, b, m)[t] == outcome(
        op,
        a,
        m,
    )[#[trigger] chosen[t]] by {
        assert(b.map_values(|v: Seq<R>| v[t]) =~= a.map_values(|v: Seq<R>| v[chosen[t]]));
    }
    assert(outcome(op, b, m) =~= picked(outcome(op, a, m), chosen));
}

/// The same of an operation on two operands.
pub proof fn lemma_rowwise2<R>(
    op: Op,
    x: Tensor,
    x2: Tensor,
    y: Tensor,
    y2: Tensor,
    n: nat,
    chosen: Seq<int>,
    m: Meaning<R>,
    p: Pass<R>,
    q: Pass<R>,
)
    requires
        is_rowwise(op),
        within(chosen, n),
        picks(value(x, m, p), value(y, m, q), n, chosen),
        picks(value(x2, m, p), value(y2, m, q), n, chosen),
    ensures
        picks(value(apply2(op, x, x2), m, p), value(apply2(op, y, y2), m, q), n, chosen),
{
    lemma_value2(op, x, x2, m, p);
    lemma_value2(op, y, y2, m, q);
    let a = seq![value(x, m, p), value(x2, m, p)];
    let b = seq![value(y, m, q), value(y2, m, q)];
    assert forall|t: int| 0 <= t < chosen.len() implies outcome(op, b, m)[t] == outcome(
        op,
        a,
        m,
    )[#[trigger] chosen[t]] by {
        assert(b.map_values(|v: Seq<R>| v[t]) =~= a.map_values(|v: Seq<R>| v[chosen[t]]));
    }
    assert(outcome(op, b, m) =~= picked(outcome(op, a, m), chosen));
}

/// The same of a gated feed-forward pass.
pub proof fn lemma_gated_picks<R>(
    gate: Op,
    up: Op,
    down: Op,
    x: Tensor,
    y: Tensor,
    n: nat,
    chosen: Seq<int>,
    m: Meaning<R>,
    p: Pass<R>,
    q: Pass<R>,
)
    requires
        is_rowwise(gate),
        is_rowwise(up),
        is_rowwise(down),
        within(chosen, n),
        picks(value(x, m, p), value(y, m, q), n, chosen),
    ensures
        picks(
            value(gated(x, gate, up, down), m, p),
            value(gated(y, gate, up, down), m, q),
            n,
            chosen,
        ),
{
    lemma_rowwise1(gate, x, y, n, chosen, m, p, q);
    lemma_rowwise1(up, x, y, n, chosen, m, p, q);
    lemma_rowwise2(
        Op::Swiglu,
        apply1(gate, x),
        apply1(up, x),
        apply1(gate, y),
        apply1(up, y),
        n,
        chosen,
        m,
        p,
        q,
    );
    lemma_rowwise1(
        down,
        apply2(Op::Swiglu, apply1(gate, x), apply1(up, x)),
        apply2(Op::Swiglu, apply1(gate, y), apply1(up, y)),
        n,
        chosen,
        m,
        p,
        q,
    );
}

/// The chosen experts and their scores go with the tokens.
proof fn lemma_scores_pick<R>(
    b: Glm4MoeLiteMlpBlock,
    layer: usize,
    x: Tensor,
    y: Tensor,
    n: nat,
    chosen: Seq<int>,
    m: Meaning<R>,
    p: Pass<R>,
    q: Pass<R>,
)
    requires
        within(chosen, n),
        picks(value(x, m, p), value(y, m, q), n, chosen),
    ensures
        picks(value(b.experts(layer, x), m, p), value(b.experts(layer, y), m, q), n, chosen),
        picks(
            value(b.scaled_scores(layer, x), m, p),
            value(b.scaled_scores(layer, y), m, q),
            n,
            chosen,
        ),
{
    let gate_op = Op::Linear(Site::Layer(layer, LayerPart::RouterGate));
    lemma_rowwise1(gate_op, x, y, n, chosen, m, p, q);
    lemma_rowwise1(Op::Softmax, apply1(gate_op, x), apply1(gate_op, y), n, chosen, m, p, q);
    let gx = Glm4MoeLiteMlpBlock::gates(layer, x);
    let gy = Glm4MoeLiteMlpBlock::gates(layer, y);
    let partition_op = Op::ArgPartition { kth: (-b.top_k) as i32 };
    let slice_op = Op::Slice {
        rank: 3,
        axis: 2,
        span: Span::From((b.num_experts - b.top_k) as i32),
    };
    lemma_rowwise1(partition_op, gx, gy, n, chosen, m, p, q);
    lemma_rowwise1(
        slice_op,
        apply1(partition_op, gx),
        apply1(partition_op, gy),
        n,
        chosen,
        m,
        p,
        q,
    );
    let ex = b.experts(layer, x);
    let ey = b.experts(layer, y);
    lemma_rowwise2(Op::TakeAlong, gx, ex, gy, ey, n, chosen, m, p, q);
    let rx = b.raw_scores(layer, x);
    let ry = b.raw_scores(layer, y);
    lemma_rowwise1(Op::SumLast, rx, ry, n, chosen, m, p, q);
    lemma_rowwise2(
        Op::Divide,
        rx,
        apply1(Op::SumLast, rx),
        ry,
        apply1(Op::SumLast, ry),
        n,
        chosen,
        m,
        p,
        q,
    );
    let nx = b.normalised_scores(layer, x);
    let ny = b.normalised_scores(layer, y);
    let scalar_op = Op::ScalarLike { value: b.scaling_factor };
    lemma_rowwise1(scalar_op, nx, ny, n, chosen, m, p, q);
    lemma_rowwise2(
        Op::Multiply,
        nx,
        apply1(scalar_op, nx),
        ny,
        apply1(scalar_op, ny),
        n,
        chosen,
        m,
        p,
        q,
    );
}

/// A routed block gives for each token what that token calls for, whatever the
/// other tokens are: the rows of some tokens, in any order, give their outcomes
/// in that order. So to reorder the tokens reorders the outcomes.
pub proof fn law_routed_tokens_are_independent<R>(
    b: Glm4MoeLiteMlpBlock,
    layer: usize,
    x: Tensor,
    y: Tensor,
    chosen: Seq<int>,
    m: Meaning<R>,
    p: Pass<R>,
    q: Pass<R>,
)
    requires
        within(chosen, value(x, m, p).len()),
        value(y, m, q) == picked(value(x, m, p), chosen),
    ensures
        value(b.moe_output(layer, x), m, p).len() == value(x, m, p).len(),
        value(b.moe_output(layer, y), m, q) == picked(value(b.moe_output(layer, x), m, p), chosen),
{
    let n = value(x, m, p).len();
    lemma_scores_pick(b, layer, x, y, n, chosen, m, p, q);
    let ex = b.experts(layer, x);
    let ey = b.experts(layer, y);
    let sx = b.scaled_scores(layer, x);
    let sy = b.scaled_scores(layer, y);
    let switch_op = Op::SwitchMlp(Site::Layer(layer, LayerPart::SwitchMlp));
    lemma_rowwise2(switch_op, x, ex, y, ey, n, chosen, m, p, q);
    lemma_rowwise1(Op::ExpandLast, sx, sy, n, chosen, m, p, q);
    let wx = apply2(
        Op::Multiply,
        apply2(switch_op, x, ex),
        apply1(Op::ExpandLast, sx),
    );
    let wy = apply2(
        Op::Multiply,
        apply2(switch_op, y, ey),
        apply1(Op::ExpandLast, sy),
    );
    lemma_rowwise2(
        Op::Multiply,
        apply2(switch_op, x, ex),
        apply1(Op::ExpandLast, sx),
        apply2(switch_op, y, ey),
        apply1(Op::ExpandLast, sy),
        n,
        chosen,
        m,
        p,
        q,
    );
    lemma_rowwise1(Op::SumExperts, wx, wy, n, chosen, m, p, q);
    if b.shared_experts is Some {
        lemma_gated_picks(
            Op::QLinear(Site::Layer(layer, LayerPart::SharedGateProj)),
            Op::QLinear(Site::Layer(layer, LayerPart::SharedUpProj)),
            Op::QLinear(Site::Layer(layer, LayerPart::SharedDownProj)),
            x,
            y,
            n,
            chosen,
            m,
            p,
            q,
        );
        lemma_rowwise2(
            Op::Add,
            b.routed_output(layer, x),
            SharedExperts::output(layer, x),
            b.routed_output(layer, y),
            SharedExperts::output(layer, y),
            n,
            chosen,
            m,
            p,
            q,
        );
    }
}

/// An operation on one row.
pub open spec fn row1<R>(m: Meaning<R>, op: Op, a: R) -> R {
    (m.row)(op, seq![a])
}

/// An operation on two rows.
pub open spec fn row2<R>(m: Meaning<R>, op: Op, a: R, b: R) -> R {
    (m.row)(op, seq![a, b])
}

/// What summing, choosing and dividing have to do for a choice of all experts to
/// be their probabilities in some order: a range that starts at 0 leaves out
/// nothing, a partition leaves the sum as it is, and probabilities add up to
/// something that divides to no effect.
pub open spec fn probabilities_add_up<R>(m: Meaning<R>) -> bool {
    let all = Op::Slice { rank: 3, axis: 2, span: Span::From(0) };
    &&& forall|r: R| #[trigger] row1(m, all, r) == r
    &&& forall|g: R, kth: i32|
        row1(
            m,
            Op::SumLast,
            row2(m, Op::TakeAlong, g, #[trigger] row1(m, Op::ArgPartition { kth }, g)),
        ) == row1(m, Op::SumLast, g)
    &&& forall|r: R, z: R|
        #[trigger] row2(m, Op::Divide, r, row1(m, Op::SumLast, row1(m, Op::Softmax, z))) == r
}

/// The scores of all experts are their probabilities, also where they are
/// brought to a sum of 1.
proof fn lemma_all_scores<R>(
    b: Glm4MoeLiteMlpBlock,
    layer: usize,
    x: Tensor,
    m: Meaning<R>,
    p: Pass<R>,
)
    requires
        b.top_k == b.num_experts,
        probabilities_add_up(m),
    ensures
        value(b.normalised_scores(layer, x), m, p) == value(b.raw_scores(layer, x), m, p),
{
    let gate_op = Op::Linear(Site::Layer(layer, LayerPart::RouterGate));
    let partition_op = Op::ArgPartition { kth: (-b.top_k) as i32 };
    let slice_op = Op::Slice { rank: 3, axis: 2, span: Span::From(0) };
    let gates = Glm4MoeLiteMlpBlock::gates(layer, x);
    let experts = b.experts(layer, x);
    let raw = b.raw_scores(layer, x);
    lemma_value1(Op::Softmax, apply1(gate_op, x), m, p);
    lemma_value1(partition_op, gates, m, p);
    lemma_value1(slice_op, apply1(partition_op, gates), m, p);
    lemma_value2(Op::TakeAlong, gates, experts, m, p);
    lemma_value1(Op::SumLast, raw, m, p);
    lemma_value2(Op::Divide, raw, apply1(Op::SumLast, raw), m, p);
    let z = value(apply1(gate_op, x), m, p);
    let g = value(gates, m, p);
    let e = value(apply1(partition_op, gates), m, p);
    let r = value(raw, m, p);
    let total = value(apply1(Op::SumLast, raw), m, p);
    let divided = apply2(Op::Divide, raw, apply1(Op::SumLast, raw));
    assert forall|t: int| 0 <= t < r.len() implies value(divided, m, p)[t] == #[trigger] r[t] by {
        assert(seq![z].map_values(|v: Seq<R>| v[t]) =~= seq![z[t]]);
        assert(g[t] == row1(m, Op::Softmax, z[t]));
        assert(seq![g].map_values(|v: Seq<R>| v[t]) =~= seq![g[t]]);
        assert(e[t] == row1(m, partition_op, g[t]));
        assert(seq![e].map_values(|v: Seq<R>| v[t]) =~= seq![e[t]]);
        assert(value(experts, m, p)[t] == row1(m, slice_op, e[t]));
        assert(seq![g, value(experts, m, p)].map_values(|v: Seq<R>| v[t]) =~= seq![g[t], e[t]]);
        assert(r[t] == row2(m, Op::TakeAlong, g[t], e[t]));
        assert(seq![r].map_values(|v: Seq<R>| v[t]) =~= seq![r[t]]);
        assert(total[t] == row1(m, Op::SumLast, g[t]));
        assert(seq![r, total].map_values(|v: Seq<R>| v[t]) =~= seq![r[t], total[t]]);
        assert(value(divided, m, p)[t] == row2(m, Op::Divide, r[t], total[t]));
    }
    assert(value(divided, m, p) =~= r);
}

/// Where every token goes to all experts, it makes no difference whether the
/// scores are brought to a sum of 1: they have it already.
pub proof fn law_all_experts_need_no_normalisation<R>(
    b: Glm4MoeLiteMlpBlock,
    layer: usize,
    x: Tensor,
    m: Meaning<R>,
    p: Pass<R>,
)
    requires
        b.top_k == b.num_experts,
        probabilities_add_up(m),
    ensures
        ({
            let on = Glm4MoeLiteMlpBlock { norm_topk_prob: true, ..b };
            let off = Glm4MoeLiteMlpBlock { norm_topk_prob: false, ..b };
            value(on.moe_output(layer, x), m, p) == value(off.moe_output(layer, x), m, p)
        }),
{
    let on = Glm4MoeLiteMlpBlock { norm_topk_prob: true, ..b };
    let off = Glm4MoeLiteMlpBlock { norm_topk_prob: false, ..b };
    lemma_all_scores(on, layer, x, m, p);
    let ns = on.normalised_scores(layer, x);
    let fs = off.normalised_scores(layer, x);
    let scalar_op = Op::ScalarLike { value: b.scaling_factor };
    lemma_value1(scalar_op, ns, m, p);
    lemma_value1(scalar_op, fs, m, p);
    lemma_value2(Op::Multiply, ns, apply1(scalar_op, ns), m, p);
    lemma_value2(Op::Multiply, fs, apply1(scalar_op, fs), m, p);
    let sn = on.scaled_scores(layer, x);
    let sf = off.scaled_scores(layer, x);
    let y = apply2(
        Op::SwitchMlp(Site::Layer(layer, LayerPart::SwitchMlp)),
        x,
        b.experts(layer, x),
    );
    lemma_value1(Op::ExpandLast, sn, m, p);
    lemma_value1(Op::ExpandLast, sf, m, p);
    lemma_value2(Op::Multiply, y, apply1(Op::ExpandLast, sn), m, p);
    lemma_value2(Op::Multiply, y, apply1(Op::ExpandLast, sf), m, p);
    lemma_value1(
        Op::SumExperts,
        apply2(Op::Multiply, y, apply1(Op::ExpandLast, sn)),
        m,
        p,
    );
    lemma_value1(
        Op::SumExperts,
        apply2(Op::Multiply, y, apply1(Op::ExpandLast, sf)),
        m,
        p,
    );
    let shared = SharedExperts::output(layer, x);
    lemma_value2(Op::Add, on.routed_output(layer, x), shared, m, p);
    lemma_value2(Op::Add, off.routed_output(layer, x), shared, m, p);
}

/// The scores of the last position are, of the scores of all positions, those at
/// the last one. (Both passes leave the caches that `caches_left` says.)
pub proof fn law_last_scores_are_the_last_of_all<R>(
    lm: Glm4MoeLiteCausalLM,
    h: Tensor,
    m: Meaning<R>,
    p: Pass<R>,
)
    ensures
        value(lm.logits(apply1(Glm4MoeLiteCausalLM::last_position_op(), h)), m, p) == positions(
            value(lm.logits(h), m, p),
            Span::From((-1) as i32),
        ),
{
    let last_op = Glm4MoeLiteCausalLM::last_position_op();
    lemma_value1(last_op, h, m, p);
    lemma_value1(lm.head_op(), apply1(last_op, h), m, p);
    lemma_value1(lm.head_op(), h, m, p);
    let a = value(h, m, p);
    let end = positions(a, Span::From((-1) as i32));
    let from = if a.len() > 0 {
        a.len() - 1
    } else {
        0
    };
    let left = outcome(lm.head_op(), seq![end], m);
    let right = positions(outcome(lm.head_op(), seq![a], m), Span::From((-1) as i32));
    assert forall|t: int| 0 <= t < left.len() implies left[t] == #[trigger] right[t] by {
        assert(seq![end].map_values(|v: Seq<R>| v[t]) =~= seq![a].map_values(
            |v: Seq<R>| v[from + t],
        ));
    }
    assert(left =~= right);
}

} // verus!
