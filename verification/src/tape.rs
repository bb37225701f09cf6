//! The tape: the tensor operations of a forward pass, in the order in which
//! they run.
//!
//! The library decides which operation runs next, on which earlier results and
//! with which attributes, and records it. Whoever owns the tensors plays the
//! tape. What a recorded result stands for is the [`Tensor`] term that
//! [`Tape::value`] gives: the operation applied to what its operands stand for.
use vstd::prelude::*;

use crate::binary32::Binary32;
use crate::cache::SteppingKeyValueCache;

verus! {

/// A weighted part of one decoder layer.
#[derive(Debug, Clone, Copy, PartialEq, Eq, Structural)]
pub enum LayerPart {
    QAProj,
    QALayernorm,
    QBProj,
    QProj,
    KvAProjWithMqa,
    KvALayernorm,
    KvBProj,
    OProj,
    RouterGate,
    SwitchMlp,
    SharedGateProj,
    SharedUpProj,
    SharedDownProj,
    DenseGateProj,
    DenseUpProj,
    DenseDownProj,
    InputLayernorm,
    PostAttentionLayernorm,
}

/// Where in the model the weights of an operation sit.
#[derive(Debug, Clone, Copy, PartialEq, Eq, Structural)]
pub enum Site {
    Layer(usize, LayerPart),
    FinalNorm,
    LmHead,
}

/// A half-open range of indices along one axis.
#[derive(Debug, Clone, Copy, PartialEq, Eq, Structural)]
pub enum Span {
    /// `..end`
    To(i32),
    /// `start..`
    From(i32),
}

/// A tensor operation and its fixed attributes.
#[derive(Debug, Clone, Copy, PartialEq, Eq, Structural)]
pub enum Op {
    /// The token ids handed to the forward pass.
    Inputs,
    /// The attention mask handed to the forward pass.
    GivenMask,
    /// Embedding of token ids.
    Embed,
    /// The embedding weights used as an output projection.
    EmbedAsLinear,
    /// The cache of a layer as it was handed to the forward pass.
    GivenCache { layer: usize, cache: Option<SteppingKeyValueCache> },
    /// The mask that the hidden states, which are operand 0, and the caches, which
    /// are the other operands, call for. It may turn out that none is needed.
    CreateMask,
    /// Gives each of `layers` layers a new, empty cache.
    FillCaches { layers: usize },
    /// The batch size and the sequence length: axes 0 and 1 of the operand.
    /// Fails on an operand with fewer than two axes.
    LeadingDims,
    /// Quantized linear projection.
    QLinear(Site),
    /// Plain linear projection without bias.
    Linear(Site),
    /// Root mean square normalisation.
    RmsNorm(Site),
    /// The routed experts: operands are the input and the expert indices.
    SwitchMlp(Site),
    /// Gated activation: operands are the gating and the up projection.
    Swiglu,
    /// Reshape of operand 0 to `[batch, length, heads, width]`, with the batch
    /// and the length of operand 1; a width of -1 is inferred.
    SplitHeads { heads: i32, width: i32 },
    /// Reshape of operand 0 to `[batch, length, -1]`, with the batch and the
    /// length of operand 1.
    MergeHeads,
    /// Transpose with the axes `[0, 2, 1, 3]`.
    SwapHeads,
    /// Broadcast of operand 0 to `[batch, heads, length, width]`, with the batch
    /// and the length of operand 1.
    BroadcastHeads { heads: i32, width: i32 },
    /// Index by `rank` ranges, all of them full but the one at `axis`.
    Slice { rank: usize, axis: usize, span: Span },
    /// Rotary position embedding over the first `width` features (not the
    /// interleaved form, with scale 1), starting at position `offset`.
    Rope { width: i32, base: Binary32, offset: i32 },
    /// Concatenation of the two operands along the last axis.
    Concat,
    /// Appends operand 0 to the keys and operand 1 to the values that the cache
    /// of a layer holds, which are those of `offset` positions, and fetches both.
    CacheUpdate { layer: usize, offset: i32 },
    /// The keys that a cache update fetched.
    FetchedKeys,
    /// The values that a cache update fetched.
    FetchedValues,
    /// Scaled dot product attention over queries, keys, values and mask, with
    /// the scale `1 / sqrt(head_dim)`.
    Attend { head_dim: i16 },
    /// Softmax over the last axis, in full precision.
    Softmax,
    /// Indices that partition the last axis around its element `kth`.
    ArgPartition { kth: i32 },
    /// Elements of operand 0 at the indices of operand 1, along the last axis.
    TakeAlong,
    /// Sum over the last axis, which stays with size 1.
    SumLast,
    /// Sum over the axis before the last, which goes.
    SumExperts,
    /// A scalar in the element type of the operand.
    ScalarLike { value: Binary32 },
    /// A new last axis of size 1.
    ExpandLast,
    Add,
    Multiply,
    Divide,
}

/// One recorded operation. Its operands are named by their places on the tape.
#[derive(Debug)]
pub struct Instr {
    pub op: Op,
    pub args: Vec<usize>,
}

/// The operations of a forward pass, in the order in which they run.
#[derive(Debug)]
pub struct Tape {
    pub instrs: Vec<Instr>,
}

/// What a recorded result stands for: an operation applied to its operands.
#[verifier::ext_equal]
pub struct Tensor {
    pub op: Op,
    pub args: Seq<Tensor>,
}

/// An operation without operands.
pub open spec fn apply0(op: Op) -> Tensor {
    Tensor { op, args: seq![] }
}

/// An operation on one operand.
pub open spec fn apply1(op: Op, a: Tensor) -> Tensor {
    Tensor { op, args: seq![a] }
}

/// An operation on two operands.
pub open spec fn apply2(op: Op, a: Tensor, b: Tensor) -> Tensor {
    Tensor { op, args: seq![a, b] }
}

/// An operation on four operands.
pub open spec fn apply4(op: Op, a: Tensor, b: Tensor, c: Tensor, d: Tensor) -> Tensor {
    Tensor { op, args: seq![a, b, c, d] }
}

/// What the result at place `n` of a list of instructions stands for.
#[verifier::opaque]
pub open spec fn term(instrs: Seq<Instr>, n: int) -> Tensor
    decreases n,
{
    if 0 <= n < instrs.len() {
        let args = instrs[n].args@;
        Tensor {
            op: instrs[n].op,
            args: Seq::new(
                args.len(),
                |k: int|
                    if 0 <= args[k] < n {
                        term(instrs, args[k] as int)
                    } else {
                        arbitrary()
                    },
            ),
        }
    } else {
        arbitrary()
    }
}

/// The term at a place does not depend on what was recorded later.
proof fn lemma_term_prefix(s: Seq<Instr>, t: Seq<Instr>, n: int)
    requires
        s.len() <= t.len(),
        forall|i: int| 0 <= i < s.len() ==> s[i] == t[i],
        0 <= n < s.len(),
    ensures
        term(s, n) == term(t, n),
    decreases n,
{
    reveal(term);
    let args = s[n].args@;
    assert forall|k: int| 0 <= k < args.len() && 0 <= args[k] < n implies term(s, args[k] as int)
        == #[trigger] term(t, args[k] as int) by {
        lemma_term_prefix(s, t, args[k] as int);
    }
    assert forall|k: int| 0 <= k < args.len() implies term(s, n).args[k] == term(t, n).args[k] by {
        if 0 <= args[k] < n {
            assert(term(s, args[k] as int) == term(t, args[k] as int));
        }
    }
    assert(term(s, n).args =~= term(t, n).args);
}

impl Tape {
    /// The number of recorded operations.
    pub open spec fn len(&self) -> nat {
        self.instrs@.len()
    }

    /// The recorded operations, in the order in which they run.
    pub open spec fn ops(&self) -> Seq<Op> {
        self.instrs@.map_values(|i: Instr| i.op)
    }

    /// What the result at place `n` stands for.
    pub open spec fn value(&self, n: int) -> Tensor {
        term(self.instrs@, n)
    }

    /// Every operand is recorded before the operation that uses it.
    pub open spec fn wf(&self) -> bool {
        forall|i: int, k: int|
            0 <= i < self.instrs@.len() && 0 <= k < self.instrs@[i].args@.len()
                ==> (#[trigger] self.instrs@[i].args@[k]) < i
    }

    /// `self` is `before` with operations recorded behind it.
    pub open spec fn extends(&self, before: Tape) -> bool {
        &&& self.wf()
        &&& before.len() <= self.len()
        &&& forall|i: int| 0 <= i < before.len() ==> self.instrs@[i] == before.instrs@[i]
        &&& forall|n: int|
            0 <= n < before.len() ==> #[trigger] self.value(n) == before.value(n)
    }

    /// An empty tape.
    pub fn new() -> (tape: Tape)
        ensures
            tape.wf(),
            tape.len() == 0,
            tape.ops() == Seq::<Op>::empty(),
    {
        Tape { instrs: Vec::new() }
    }

    /// Records an operation; returns its place.
    pub fn record(&mut self, op: Op, args: Vec<usize>) -> (place: usize)
        requires
            old(self).wf(),
            forall|k: int| 0 <= k < args@.len() ==> (#[trigger] args@[k]) < old(self).len(),
        ensures
            final(self).extends(*old(self)),
            place == old(self).len(),
            final(self).len() == place + 1,
            final(self).ops() == old(self).ops().push(op),
            final(self).instrs@[place as int].args@ == args@,
            final(self).value(place as int) == (Tensor {
                op,
                args: Seq::new(args@.len(), |k: int| old(self).value(args@[k] as int)),
            }),
    {
        let place: usize = self.instrs.len();
        let ghost arg_places = args@;
        self.instrs.push(Instr { op, args });
        proof {
            let before = old(self).instrs@;
            let after = self.instrs@;
            assert forall|n: int| 0 <= n < before.len() implies #[trigger] term(after, n) == term(
                before,
                n,
            ) by {
                lemma_term_prefix(before, after, n);
            }
            assert(self.ops() =~= old(self).ops().push(op));
            let expected = Seq::new(
                arg_places.len(),
                |k: int| old(self).value(arg_places[k] as int),
            );
            reveal(term);
            assert forall|k: int| 0 <= k < arg_places.len() implies term(after, place as int).args[k]
                == expected[k] by {
                assert(term(after, arg_places[k] as int) == term(before, arg_places[k] as int));
            }
            assert(self.value(place as int).args =~= expected);
        }
        place
    }

    /// Records an operation without operands.
    pub fn record0(&mut self, op: Op) -> (place: usize)
        requires
            old(self).wf(),
        ensures
            final(self).extends(*old(self)),
            place == old(self).len(),
            final(self).len() == place + 1,
            final(self).ops() == old(self).ops().push(op),
            final(self).instrs@[place as int].args@ == Seq::<usize>::empty(),
            final(self).value(place as int) == apply0(op),
    {
        let place: usize = self.record(op, Vec::new());
        assert(self.value(place as int).args =~= seq![]);
        place
    }

    /// Records an operation on one operand.
    pub fn record1(&mut self, op: Op, a: usize) -> (place: usize)
        requires
            old(self).wf(),
            a < old(self).len(),
        ensures
            final(self).extends(*old(self)),
            place == old(self).len(),
            final(self).len() == place + 1,
            final(self).ops() == old(self).ops().push(op),
            final(self).instrs@[place as int].args@ == seq![a],
            final(self).value(place as int) == apply1(op, old(self).value(a as int)),
    {
        let place: usize = self.record(op, vec![a]);
        assert(self.value(place as int).args =~= seq![old(self).value(a as int)]);
        place
    }

    /// Records an operation on two operands.
    pub fn record2(&mut self, op: Op, a: usize, b: usize) -> (place: usize)
        requires
            old(self).wf(),
            a < old(self).len(),
            b < old(self).len(),
        ensures
            final(self).extends(*old(self)),
            place == old(self).len(),
            final(self).len() == place + 1,
            final(self).ops() == old(self).ops().push(op),
            final(self).instrs@[place as int].args@ == seq![a, b],
            final(self).value(place as int) == apply2(
                op,
                old(self).value(a as int),
                old(self).value(b as int),
            ),
    {
        let place: usize = self.record(op, vec![a, b]);
        assert(self.value(place as int).args =~= seq![
            old(self).value(a as int),
            old(self).value(b as int),
        ]);
        place
    }

    /// Records an operation on four operands.
    pub fn record4(&mut self, op: Op, a: usize, b: usize, c: usize, d: usize) -> (place: usize)
        requires
            old(self).wf(),
            a < old(self).len(),
            b < old(self).len(),
            c < old(self).len(),
            d < old(self).len(),
        ensures
            final(self).extends(*old(self)),
            place == old(self).len(),
            final(self).len() == place + 1,
            final(self).ops() == old(self).ops().push(op),
            final(self).instrs@[place as int].args@ == seq![a, b, c, d],
            final(self).value(place as int) == apply4(
                op,
                old(self).value(a as int),
                old(self).value(b as int),
                old(self).value(c as int),
                old(self).value(d as int),
            ),
    {
        let place: usize = self.record(op, vec![a, b, c, d]);
        assert(self.value(place as int).args =~= seq![
            old(self).value(a as int),
            old(self).value(b as int),
            old(self).value(c as int),
            old(self).value(d as int),
        ]);
        place
    }
}

} // verus!
