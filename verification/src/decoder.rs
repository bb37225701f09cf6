//! A decoder layer: attention and feed-forward block, each behind a
//! normalisation and added to what came in.
use vstd::prelude::*;

use crate::attention::{leading, Glm4MoeLiteAttention};
use crate::cache::{has_room, SteppingKeyValueCache};
use crate::config::{given_or, Glm4MoeLiteModelArgs};
use crate::error::{ModelError, Module};
use crate::mlp::Glm4MoeLiteMlpBlock;
use crate::tape::{apply1, apply2, LayerPart, Op, Site, Tape, Tensor};
use crate::weights::RmsNorm;

verus! {

/// One decoder layer.
#[derive(Debug, Clone, Copy, PartialEq, Eq, Structural)]
pub struct Glm4MoeLiteDecoderLayer {
    pub self_attn: Glm4MoeLiteAttention,
    pub mlp: Glm4MoeLiteMlpBlock,
    pub input_layernorm: RmsNorm,
    pub post_attention_layernorm: RmsNorm,
}

impl Glm4MoeLiteDecoderLayer {
    /// The feed-forward block that the settings call for at a layer: routed
    /// behind the dense layers at the start, where there are experts.
    pub open spec fn mlp_layout(
        args: Glm4MoeLiteModelArgs,
        layer_idx: int,
        ql: i32,
        qb: i32,
    ) -> Glm4MoeLiteMlpBlock {
        if args.routes(layer_idx) {
            Glm4MoeLiteMlpBlock::moe_layout(args, args.n_routed_experts->0, ql, qb)
        } else {
            Glm4MoeLiteMlpBlock::dense_layout(ql, qb)
        }
    }

    /// The layer that the settings call for.
    pub open spec fn layout(
        args: Glm4MoeLiteModelArgs,
        layer_idx: int,
        ql: i32,
        qb: i32,
    ) -> Self {
        let norm = RmsNorm { dims: args.hidden_size, eps: args.rms_norm_eps };
        Glm4MoeLiteDecoderLayer {
            self_attn: Glm4MoeLiteAttention::layout(args, ql, qb),
            mlp: Self::mlp_layout(args, layer_idx, ql, qb),
            input_layernorm: norm,
            post_attention_layernorm: norm,
        }
    }

    /// Lays out a layer.
    pub fn new(args: &Glm4MoeLiteModelArgs, layer_idx: i32, ql: i32, qb: i32) -> (res: Result<
        Self,
        ModelError,
    >)
        requires
            i32::MIN <= args.head_width() <= i32::MAX,
        ensures
            i16::MIN <= args.head_width() <= i16::MAX ==> res == Ok::<Self, ModelError>(
                Self::layout(*args, layer_idx as int, ql, qb),
            ),
            !(i16::MIN <= args.head_width() <= i16::MAX) ==> res == Err::<Self, ModelError>(
                ModelError::QHeadDimOutOfRange,
            ),
    {
        let mlp = if args.is_moe_layer(layer_idx) {
            Glm4MoeLiteMlpBlock::new_moe(args, ql, qb)?
        } else {
            Glm4MoeLiteMlpBlock::new_dense(ql, qb)
        };
        let self_attn = match Glm4MoeLiteAttention::new(args, ql, qb) {
            Ok(attention) => attention,
            Err(e) => {
                return Err(e);
            },
        };
        let norm = RmsNorm { dims: args.hidden_size, eps: args.rms_norm_eps };
        Ok(
            Glm4MoeLiteDecoderLayer {
                self_attn,
                mlp,
                input_layernorm: norm,
                post_attention_layernorm: norm,
            },
        )
    }

    /// The first module that the layer calls for and does not have.
    pub open spec fn missing(self) -> Option<Module> {
        match self.self_attn.missing() {
            Some(module) => Some(module),
            None => self.mlp.missing(),
        }
    }

    /// The sizes that a forward pass computes fit their types.
    pub open spec fn fits(self) -> bool {
        self.self_attn.fits() && (self.self_attn.missing() is None ==> self.mlp.fits())
    }

    /// If the attention lacks no module, the cache has room for `length` more
    /// positions.
    pub open spec fn has_room(self, cache: Option<SteppingKeyValueCache>, length: int) -> bool {
        self.self_attn.missing() is None ==> has_room(cache, length)
    }

    /// The hidden states between attention and feed-forward block.
    pub open spec fn attended(
        self,
        layer: usize,
        x: Tensor,
        mask: Tensor,
        cache: Option<SteppingKeyValueCache>,
    ) -> Tensor {
        let normed = apply1(Op::RmsNorm(Site::Layer(layer, LayerPart::InputLayernorm)), x);
        apply2(Op::Add, x, self.self_attn.output(layer, normed, mask, cache))
    }

    /// What the feed-forward block takes.
    pub open spec fn block_input(
        self,
        layer: usize,
        x: Tensor,
        mask: Tensor,
        cache: Option<SteppingKeyValueCache>,
    ) -> Tensor {
        apply1(
            Op::RmsNorm(Site::Layer(layer, LayerPart::PostAttentionLayernorm)),
            self.attended(layer, x, mask, cache),
        )
    }

    /// The last result ahead of a module that is missing.
    pub open spec fn stopped_at(
        self,
        layer: usize,
        x: Tensor,
        mask: Tensor,
        cache: Option<SteppingKeyValueCache>,
    ) -> Tensor {
        if self.self_attn.missing() is Some {
            leading(apply1(Op::RmsNorm(Site::Layer(layer, LayerPart::InputLayernorm)), x))
        } else {
            let input = self.block_input(layer, x, mask, cache);
            given_or(self.mlp.stopped_at(layer, input), input)
        }
    }

    /// What the layer makes of `x`.
    #[verifier::opaque]
    pub open spec fn output(
        self,
        layer: usize,
        x: Tensor,
        mask: Tensor,
        cache: Option<SteppingKeyValueCache>,
    ) -> Tensor {
        apply2(
            Op::Add,
            self.attended(layer, x, mask, cache),
            self.mlp.output(layer, self.block_input(layer, x, mask, cache)),
        )
    }

    /// The operations of the layer, in order. It stops where a module is
    /// missing.
    #[verifier::opaque]
    pub open spec fn ops(self, layer: usize, cache: Option<SteppingKeyValueCache>) -> Seq<Op> {
        let attention_ops = seq![Op::RmsNorm(Site::Layer(layer, LayerPart::InputLayernorm))]
            + self.self_attn.ops(layer, cache);
        let mlp_ops = seq![
            Op::Add,
            Op::RmsNorm(Site::Layer(layer, LayerPart::PostAttentionLayernorm)),
        ] + self.mlp.ops(layer);
        if self.self_attn.missing() is Some {
            attention_ops
        } else if self.mlp.missing() is Some {
            attention_ops + mlp_ops
        } else {
            attention_ops + mlp_ops.push(Op::Add)
        }
    }

    /// Records layer `layer` over the hidden states at place `x`; returns the
    /// place of the outcome. The cache takes up `length` positions: as many as the
    /// hidden states have.
    pub fn forward(
        &self,
        tape: &mut Tape,
        layer: usize,
        x: usize,
        mask: usize,
        cache: &mut Option<SteppingKeyValueCache>,
        length: i32,
    ) -> (res: Result<usize, ModelError>)
        requires
            self.fits(),
            self.has_room(*old(cache), length as int),
            old(tape).wf(),
            x < old(tape).len(),
            mask < old(tape).len(),
        ensures
            final(tape).extends(*old(tape)),
            final(tape).ops() == old(tape).ops() + self.ops(layer, *old(cache)),
            *final(cache) == self.self_attn.cache_left(*old(cache), length as int),
            match self.missing() {
                Some(module) => {
                    &&& res == Err::<usize, ModelError>(ModelError::Missing(module))
                    &&& final(tape).value(final(tape).len() - 1) == self.stopped_at(
                        layer,
                        old(tape).value(x as int),
                        old(tape).value(mask as int),
                        *old(cache),
                    )
                },
                None => {
                    &&& res matches Ok(place)
                    &&& place < final(tape).len()
                    &&& final(tape).value(place as int) == self.output(
                        layer,
                        old(tape).value(x as int),
                        old(tape).value(mask as int),
                        *old(cache),
                    )
                },
            },
    {
        reveal(Glm4MoeLiteDecoderLayer::output);
        reveal(Glm4MoeLiteDecoderLayer::ops);
        let ghost start = old(tape).ops();
        let normed: usize = tape.record1(
            Op::RmsNorm(Site::Layer(layer, LayerPart::InputLayernorm)),
            x,
        );
        let attn_out: usize = match self.self_attn.forward(
            tape,
            layer,
            normed,
            mask,
            cache,
            length,
        ) {
            Ok(place) => place,
            Err(e) => {
                assert(tape.ops() =~= start + self.ops(layer, *old(cache)));
                return Err(e);
            },
        };
        let h: usize = tape.record2(Op::Add, x, attn_out);
        let normed_post: usize = tape.record1(
            Op::RmsNorm(Site::Layer(layer, LayerPart::PostAttentionLayernorm)),
            h,
        );
        let mlp_out: usize = match self.mlp.forward(tape, layer, normed_post) {
            Ok(place) => place,
            Err(e) => {
                assert(tape.ops() =~= start + self.ops(layer, *old(cache)));
                return Err(e);
            },
        };
        let output: usize = tape.record2(Op::Add, h, mlp_out);
        assert(tape.ops() =~= start + self.ops(layer, *old(cache)));
        Ok(output)
    }
}

} // verus!
