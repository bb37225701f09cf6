//! The feed-forward block of a layer: dense, or routed to experts.
use vstd::prelude::*;

use crate::binary32::{Binary32, ONE_BITS};
use crate::config::{given_or, Glm4MoeLiteModelArgs};
use crate::error::{ModelError, Module};
use crate::tape::{apply1, apply2, LayerPart, Op, Site, Span, Tape, Tensor};
use crate::weights::{Linear, QLinear, SwitchMlpWeights};

verus! {

/// The experts that every token goes through.
#[derive(Debug, Clone, Copy, PartialEq, Eq, Structural)]
pub struct SharedExperts {
    pub gate_proj: QLinear,
    pub down_proj: QLinear,
    pub up_proj: QLinear,
}

/// A gated feed-forward pass: gate and up projection, activation, down
/// projection.
pub open spec fn gated(x: Tensor, gate: Op, up: Op, down: Op) -> Tensor {
    apply1(down, apply2(Op::Swiglu, apply1(gate, x), apply1(up, x)))
}

/// The operations of a gated feed-forward pass, in order.
pub open spec fn gated_ops(gate: Op, up: Op, down: Op) -> Seq<Op> {
    seq![gate, up, Op::Swiglu, down]
}

/// Records a gated feed-forward pass; returns the place of its outcome.
fn record_gated(tape: &mut Tape, x: usize, gate: Op, up: Op, down: Op) -> (place: usize)
    requires
        old(tape).wf(),
        x < old(tape).len(),
    ensures
        final(tape).extends(*old(tape)),
        place < final(tape).len(),
        final(tape).value(place as int) == gated(old(tape).value(x as int), gate, up, down),
        final(tape).ops() == old(tape).ops() + gated_ops(gate, up, down),
{
    let g: usize = tape.record1(gate, x);
    let u: usize = tape.record1(up, x);
    let activated: usize = tape.record2(Op::Swiglu, g, u);
    let d: usize = tape.record1(down, activated);
    assert(tape.ops() =~= old(tape).ops() + gated_ops(gate, up, down));
    d
}

impl SharedExperts {
    /// Lays out the shared experts.
    pub fn new(ql: i32, qb: i32) -> (shared: Self)
        ensures
            shared == Self::layout(ql, qb),
    {
        let linear = QLinear { group_size: ql, bits: qb };
        SharedExperts { gate_proj: linear, down_proj: linear, up_proj: linear }
    }

    /// The shared experts under a quantization.
    pub open spec fn layout(ql: i32, qb: i32) -> Self {
        SharedExperts {
            gate_proj: QLinear { group_size: ql, bits: qb },
            down_proj: QLinear { group_size: ql, bits: qb },
            up_proj: QLinear { group_size: ql, bits: qb },
        }
    }

    /// What the shared experts make of `x`.
    pub open spec fn output(layer: usize, x: Tensor) -> Tensor {
        gated(
            x,
            Op::QLinear(Site::Layer(layer, LayerPart::SharedGateProj)),
            Op::QLinear(Site::Layer(layer, LayerPart::SharedUpProj)),
            Op::QLinear(Site::Layer(layer, LayerPart::SharedDownProj)),
        )
    }

    /// The operations of the shared experts, in order.
    pub open spec fn ops(layer: usize) -> Seq<Op> {
        gated_ops(
            Op::QLinear(Site::Layer(layer, LayerPart::SharedGateProj)),
            Op::QLinear(Site::Layer(layer, LayerPart::SharedUpProj)),
            Op::QLinear(Site::Layer(layer, LayerPart::SharedDownProj)),
        )
    }

    /// Records the shared experts; returns the place of their outcome.
    pub fn forward(&self, tape: &mut Tape, layer: usize, x: usize) -> (place: usize)
        requires
            old(tape).wf(),
            x < old(tape).len(),
        ensures
            final(tape).extends(*old(tape)),
            place < final(tape).len(),
            final(tape).value(place as int) == Self::output(layer, old(tape).value(x as int)),
            final(tape).ops() == old(tape).ops() + Self::ops(layer),
    {
        record_gated(
            tape,
            x,
            Op::QLinear(Site::Layer(layer, LayerPart::SharedGateProj)),
            Op::QLinear(Site::Layer(layer, LayerPart::SharedUpProj)),
            Op::QLinear(Site::Layer(layer, LayerPart::SharedDownProj)),
        )
    }
}

/// The feed-forward block of one layer.
#[derive(Debug, Clone, Copy, PartialEq, Eq, Structural)]
pub struct Glm4MoeLiteMlpBlock {
    pub gate: Option<Linear>,
    pub switch_mlp: Option<SwitchMlpWeights>,
    pub shared_experts: Option<SharedExperts>,
    pub gate_proj: Option<QLinear>,
    pub down_proj: Option<QLinear>,
    pub up_proj: Option<QLinear>,
    pub num_experts: i32,
    pub top_k: i32,
    pub scaling_factor: Binary32,
    pub norm_topk_prob: bool,
    pub is_moe: bool,
}

impl Glm4MoeLiteMlpBlock {
    /// The routed block that the settings call for, with `n_routed` experts.
    pub open spec fn moe_layout(
        args: Glm4MoeLiteModelArgs,
        n_routed: i32,
        ql: i32,
        qb: i32,
    ) -> Self {
        Glm4MoeLiteMlpBlock {
            gate: Some(
                Linear { input_dims: args.hidden_size, output_dims: n_routed, bias: false },
            ),
            switch_mlp: Some(SwitchMlpWeights { group_size: ql, bits: qb }),
            shared_experts: match args.n_shared_experts {
                Some(n) => if n > 0 {
                    Some(SharedExperts::layout(ql, qb))
                } else {
                    None
                },
                None => None,
            },
            gate_proj: None,
            down_proj: None,
            up_proj: None,
            num_experts: n_routed,
            top_k: given_or(args.num_experts_per_tok, 2),
            scaling_factor: given_or(args.routed_scaling_factor, Binary32 { bits: ONE_BITS }),
            norm_topk_prob: args.norm_topk_prob,
            is_moe: true,
        }
    }

    /// A dense block under a quantization.
    pub open spec fn dense_layout(ql: i32, qb: i32) -> Self {
        let linear = QLinear { group_size: ql, bits: qb };
        Glm4MoeLiteMlpBlock {
            gate: None,
            switch_mlp: None,
            shared_experts: None,
            gate_proj: Some(linear),
            down_proj: Some(linear),
            up_proj: Some(linear),
            num_experts: 0,
            top_k: 0,
            scaling_factor: Binary32 { bits: ONE_BITS },
            norm_topk_prob: false,
            is_moe: false,
        }
    }

    /// Lays out a routed block. The settings must say how many experts there
    /// are.
    pub fn new_moe(args: &Glm4MoeLiteModelArgs, ql: i32, qb: i32) -> (res: Result<
        Self,
        ModelError,
    >)
        ensures
            match args.n_routed_experts {
                Some(n) => res == Ok::<Self, ModelError>(Self::moe_layout(*args, n, ql, qb)),
                None => res == Err::<Self, ModelError>(ModelError::RoutedExpertsRequired),
            },
    {
        let n_routed: i32 = match args.n_routed_experts {
            Some(n) => n,
            None => {
                return Err(ModelError::RoutedExpertsRequired);
            },
        };
        let top_k: i32 = match args.num_experts_per_tok {
            Some(k) => k,
            None => 2,
        };
        let shared = match args.n_shared_experts {
            Some(n) => if n > 0 {
                Some(SharedExperts::new(ql, qb))
            } else {
                None
            },
            None => None,
        };
        let scaling_factor = match args.routed_scaling_factor {
            Some(factor) => factor,
            None => Binary32 { bits: ONE_BITS },
        };
        Ok(
            Glm4MoeLiteMlpBlock {
                gate: Some(
                    Linear { input_dims: args.hidden_size, output_dims: n_routed, bias: false },
                ),
                switch_mlp: Some(SwitchMlpWeights { group_size: ql, bits: qb }),
                shared_experts: shared,
                gate_proj: None,
                down_proj: None,
                up_proj: None,
                num_experts: n_routed,
                top_k,
                scaling_factor,
                norm_topk_prob: args.norm_topk_prob,
                is_moe: true,
            },
        )
    }

    /// Lays out a dense block.
    pub fn new_dense(ql: i32, qb: i32) -> (block: Self)
        ensures
            block == Self::dense_layout(ql, qb),
    {
        let linear = QLinear { group_size: ql, bits: qb };
        Glm4MoeLiteMlpBlock {
            gate: None,
            switch_mlp: None,
            shared_experts: None,
            gate_proj: Some(linear),
            down_proj: Some(linear),
            up_proj: Some(linear),
            num_experts: 0,
            top_k: 0,
            scaling_factor: Binary32 { bits: ONE_BITS },
            norm_topk_prob: false,
            is_moe: false,
        }
    }

    /// The first module that the block calls for and does not have.
    pub open spec fn missing(self) -> Option<Module> {
        if self.is_moe {
            self.missing_moe()
        } else {
            self.missing_dense()
        }
    }

    /// The first module that routing calls for and the block does not have.
    pub open spec fn missing_moe(self) -> Option<Module> {
        if self.gate is None {
            Some(Module::RouterGate)
        } else if self.switch_mlp is None {
            Some(Module::SwitchMlp)
        } else {
            None
        }
    }

    /// The first module that a dense pass calls for and the block does not have.
    pub open spec fn missing_dense(self) -> Option<Module> {
        if self.gate_proj is None {
            Some(Module::DenseGateProj)
        } else if self.down_proj is None {
            Some(Module::DenseDownProj)
        } else if self.up_proj is None {
            Some(Module::DenseUpProj)
        } else {
            None
        }
    }

    /// The places of the chosen experts in the partition fit their type.
    pub open spec fn routing_fits(self) -> bool {
        self.gate is Some ==> {
            &&& -self.top_k <= i32::MAX
            &&& i32::MIN <= self.num_experts - self.top_k <= i32::MAX
        }
    }

    /// If the block is routed, its routing fits.
    pub open spec fn fits(self) -> bool {
        self.is_moe ==> self.routing_fits()
    }

    /// The probabilities of the experts.
    pub open spec fn gates(layer: usize, x: Tensor) -> Tensor {
        apply1(
            Op::Softmax,
            apply1(Op::Linear(Site::Layer(layer, LayerPart::RouterGate)), x),
        )
    }

    /// The chosen experts: the last `top_k` of a partition of all experts.
    pub open spec fn experts(self, layer: usize, x: Tensor) -> Tensor {
        apply1(
            Op::Slice { rank: 3, axis: 2, span: Span::From((self.num_experts - self.top_k) as i32) },
            apply1(Op::ArgPartition { kth: (-self.top_k) as i32 }, Self::gates(layer, x)),
        )
    }

    /// The probabilities of the chosen experts.
    pub open spec fn raw_scores(self, layer: usize, x: Tensor) -> Tensor {
        apply2(Op::TakeAlong, Self::gates(layer, x), self.experts(layer, x))
    }

    /// The scores of the chosen experts, brought to a sum of 1 if so set.
    pub open spec fn normalised_scores(self, layer: usize, x: Tensor) -> Tensor {
        let raw = self.raw_scores(layer, x);
        if self.norm_topk_prob {
            apply2(Op::Divide, raw, apply1(Op::SumLast, raw))
        } else {
            raw
        }
    }

    /// The scores of the chosen experts, scaled unless the factor is as good as
    /// 1.
    pub open spec fn scaled_scores(self, layer: usize, x: Tensor) -> Tensor {
        let scores = self.normalised_scores(layer, x);
        if self.scaling_factor.departs_from_one() {
            apply2(
                Op::Multiply,
                scores,
                apply1(Op::ScalarLike { value: self.scaling_factor }, scores),
            )
        } else {
            scores
        }
    }

    /// The outcomes of the chosen experts, summed by their scores.
    pub open spec fn routed_output(self, layer: usize, x: Tensor) -> Tensor {
        apply1(
            Op::SumExperts,
            apply2(
                Op::Multiply,
                apply2(
                    Op::SwitchMlp(Site::Layer(layer, LayerPart::SwitchMlp)),
                    x,
                    self.experts(layer, x),
                ),
                apply1(Op::ExpandLast, self.scaled_scores(layer, x)),
            ),
        )
    }

    /// What a routed block makes of `x`: the routed outcome, and the shared
    /// experts' where there are any.
    pub open spec fn moe_output(self, layer: usize, x: Tensor) -> Tensor {
        let routed = self.routed_output(layer, x);
        if self.shared_experts is Some {
            apply2(Op::Add, routed, SharedExperts::output(layer, x))
        } else {
            routed
        }
    }

    /// What a dense block makes of `x`.
    pub open spec fn dense_output(layer: usize, x: Tensor) -> Tensor {
        gated(
            x,
            Op::QLinear(Site::Layer(layer, LayerPart::DenseGateProj)),
            Op::QLinear(Site::Layer(layer, LayerPart::DenseUpProj)),
            Op::QLinear(Site::Layer(layer, LayerPart::DenseDownProj)),
        )
    }

    /// What the block makes of `x`.
    #[verifier::opaque]
    pub open spec fn output(self, layer: usize, x: Tensor) -> Tensor {
        if self.is_moe {
            self.moe_output(layer, x)
        } else {
            Self::dense_output(layer, x)
        }
    }

    /// The last result ahead of a module that is missing, if the block gives any:
    /// the scores, where the experts are missing.
    pub open spec fn stopped_at(self, layer: usize, x: Tensor) -> Option<Tensor> {
        if self.is_moe && self.gate is Some {
            Some(self.scaled_scores(layer, x))
        } else {
            None
        }
    }

    /// The operations that choose the experts and score them.
    pub open spec fn scoring_ops(self, layer: usize) -> Seq<Op> {
        let choose_ops = seq![
            Op::Linear(Site::Layer(layer, LayerPart::RouterGate)),
            Op::Softmax,
            Op::ArgPartition { kth: (-self.top_k) as i32 },
            Op::Slice { rank: 3, axis: 2, span: Span::From((self.num_experts - self.top_k) as i32) },
            Op::TakeAlong,
        ];
        let normalise_ops = if self.norm_topk_prob {
            seq![Op::SumLast, Op::Divide]
        } else {
            seq![]
        };
        let scale_ops = if self.scaling_factor.departs_from_one() {
            seq![Op::ScalarLike { value: self.scaling_factor }, Op::Multiply]
        } else {
            seq![]
        };
        choose_ops + normalise_ops + scale_ops
    }

    /// The operations of a routed block, in order. It stops where a module is
    /// missing.
    pub open spec fn moe_ops(self, layer: usize) -> Seq<Op> {
        if self.gate is None {
            seq![]
        } else if self.switch_mlp is None {
            self.scoring_ops(layer)
        } else {
            let combine_ops = seq![
                Op::SwitchMlp(Site::Layer(layer, LayerPart::SwitchMlp)),
                Op::ExpandLast,
                Op::Multiply,
                Op::SumExperts,
            ];
            let shared_ops = if self.shared_experts is Some {
                SharedExperts::ops(layer).push(Op::Add)
            } else {
                seq![]
            };
            self.scoring_ops(layer) + combine_ops + shared_ops
        }
    }

    /// The operations of a dense block, in order. There are none where a module
    /// is missing.
    pub open spec fn dense_ops(self, layer: usize) -> Seq<Op> {
        if self.missing_dense() is Some {
            seq![]
        } else {
            gated_ops(
                Op::QLinear(Site::Layer(layer, LayerPart::DenseGateProj)),
                Op::QLinear(Site::Layer(layer, LayerPart::DenseUpProj)),
                Op::QLinear(Site::Layer(layer, LayerPart::DenseDownProj)),
            )
        }
    }

    /// The operations of the block, in order.
    #[verifier::opaque]
    pub open spec fn ops(self, layer: usize) -> Seq<Op> {
        if self.is_moe {
            self.moe_ops(layer)
        } else {
            self.dense_ops(layer)
        }
    }

    /// Records the block of layer `layer` over the hidden states at place `x`;
    /// returns the place of the outcome.
    pub fn forward(&self, tape: &mut Tape, layer: usize, x: usize) -> (res: Result<
        usize,
        ModelError,
    >)
        requires
            self.fits(),
            old(tape).wf(),
            x < old(tape).len(),
        ensures
            final(tape).extends(*old(tape)),
            final(tape).ops() == old(tape).ops() + self.ops(layer),
            match self.missing() {
                Some(module) => {
                    &&& res == Err::<usize, ModelError>(ModelError::Missing(module))
                    &&& match self.stopped_at(layer, old(tape).value(x as int)) {
                        Some(t) => final(tape).value(final(tape).len() - 1) == t,
                        None => *final(tape) == *old(tape),
                    }
                },
                None => {
                    &&& res matches Ok(place)
                    &&& place < final(tape).len()
                    &&& final(tape).value(place as int) == self.output(
                        layer,
                        old(tape).value(x as int),
                    )
                },
            },
    {
        reveal(Glm4MoeLiteMlpBlock::output);
        reveal(Glm4MoeLiteMlpBlock::ops);
        if self.is_moe {
            self.forward_moe(tape, layer, x)
        } else {
            self.forward_dense(tape, layer, x)
        }
    }

    /// Records how the chosen experts are scored; returns the places of the
    /// experts and of their scores.
    fn record_scores(&self, tape: &mut Tape, layer: usize, x: usize) -> (res: (usize, usize))
        requires
            self.gate is Some,
            self.routing_fits(),
            old(tape).wf(),
            x < old(tape).len(),
        ensures
            final(tape).extends(*old(tape)),
            final(tape).ops() == old(tape).ops() + self.scoring_ops(layer),
            res.0 < final(tape).len(),
            res.1 == final(tape).len() - 1,
            final(tape).value(res.0 as int) == self.experts(layer, old(tape).value(x as int)),
            final(tape).value(res.1 as int) == self.scaled_scores(
                layer,
                old(tape).value(x as int),
            ),
    {
        let ghost xv = old(tape).value(x as int);
        let gates_raw: usize = tape.record1(
            Op::Linear(Site::Layer(layer, LayerPart::RouterGate)),
            x,
        );
        let gates: usize = tape.record1(Op::Softmax, gates_raw);
        let neg_k: i32 = -self.top_k;
        let all_inds: usize = tape.record1(Op::ArgPartition { kth: neg_k }, gates);
        let top_k_start: i32 = self.num_experts - self.top_k;
        let top_inds: usize = tape.record1(
            Op::Slice { rank: 3, axis: 2, span: Span::From(top_k_start) },
            all_inds,
        );
        let raw_scores: usize = tape.record2(Op::TakeAlong, gates, top_inds);
        assert(tape.value(raw_scores as int) == self.raw_scores(layer, xv));
        let normalised: usize = if self.norm_topk_prob {
            let score_sum: usize = tape.record1(Op::SumLast, raw_scores);
            tape.record2(Op::Divide, raw_scores, score_sum)
        } else {
            raw_scores
        };
        assert(tape.value(normalised as int) == self.normalised_scores(layer, xv));
        let scaled: usize = if self.scaling_factor.differs_from_one() {
            let scalar: usize = tape.record1(
                Op::ScalarLike { value: self.scaling_factor },
                normalised,
            );
            tape.record2(Op::Multiply, normalised, scalar)
        } else {
            normalised
        };
        assert(tape.ops() =~= old(tape).ops() + self.scoring_ops(layer));
        (top_inds, scaled)
    }

    /// Records a routed block; returns the place of its outcome.
    pub fn forward_moe(&self, tape: &mut Tape, layer: usize, x: usize) -> (res: Result<
        usize,
        ModelError,
    >)
        requires
            self.routing_fits(),
            old(tape).wf(),
            x < old(tape).len(),
        ensures
            final(tape).extends(*old(tape)),
            final(tape).ops() == old(tape).ops() + self.moe_ops(layer),
            match self.missing_moe() {
                Some(module) => {
                    &&& res == Err::<usize, ModelError>(ModelError::Missing(module))
                    &&& if self.gate is Some {
                        final(tape).value(final(tape).len() - 1) == self.scaled_scores(
                            layer,
                            old(tape).value(x as int),
                        )
                    } else {
                        *final(tape) == *old(tape)
                    }
                },
                None => {
                    &&& res matches Ok(place)
                    &&& place < final(tape).len()
                    &&& final(tape).value(place as int) == self.moe_output(
                        layer,
                        old(tape).value(x as int),
                    )
                },
            },
    {
        if self.gate.is_none() {
            return Err(ModelError::Missing(Module::RouterGate));
        }
        let (top_inds, scaled) = self.record_scores(tape, layer, x);
        if self.switch_mlp.is_none() {
            return Err(ModelError::Missing(Module::SwitchMlp));
        }
        let y: usize = tape.record2(
            Op::SwitchMlp(Site::Layer(layer, LayerPart::SwitchMlp)),
            x,
            top_inds,
        );
        let weights: usize = tape.record1(Op::ExpandLast, scaled);
        let weighted: usize = tape.record2(Op::Multiply, y, weights);
        let routed: usize = tape.record1(Op::SumExperts, weighted);
        let result: usize = match &self.shared_experts {
            Some(shared) => {
                let shared_out: usize = shared.forward(tape, layer, x);
                tape.record2(Op::Add, routed, shared_out)
            },
            None => routed,
        };
        assert(tape.ops() =~= old(tape).ops() + self.moe_ops(layer));
        Ok(result)
    }

    /// Records a dense block; returns the place of its outcome.
    pub fn forward_dense(&self, tape: &mut Tape, layer: usize, x: usize) -> (res: Result<
        usize,
        ModelError,
    >)
        requires
            old(tape).wf(),
            x < old(tape).len(),
        ensures
            final(tape).extends(*old(tape)),
            final(tape).ops() == old(tape).ops() + self.dense_ops(layer),
            match self.missing_dense() {
                Some(module) => {
                    &&& res == Err::<usize, ModelError>(ModelError::Missing(module))
                    &&& *final(tape) == *old(tape)
                },
                None => {
                    &&& res matches Ok(place)
                    &&& place < final(tape).len()
                    &&& final(tape).value(place as int) == Self::dense_output(
                        layer,
                        old(tape).value(x as int),
                    )
                },
            },
    {
        if self.gate_proj.is_none() {
            return Err(ModelError::Missing(Module::DenseGateProj));
        }
        if self.down_proj.is_none() {
            return Err(ModelError::Missing(Module::DenseDownProj));
        }
        if self.up_proj.is_none() {
            return Err(ModelError::Missing(Module::DenseUpProj));
        }
        let place: usize = record_gated(
            tape,
            x,
            Op::QLinear(Site::Layer(layer, LayerPart::DenseGateProj)),
            Op::QLinear(Site::Layer(layer, LayerPart::DenseUpProj)),
            Op::QLinear(Site::Layer(layer, LayerPart::DenseDownProj)),
        );
        Ok(place)
    }
}

} // verus!
