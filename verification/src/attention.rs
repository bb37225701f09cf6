//! Multi-head latent attention.
use vstd::prelude::*;

use crate::binary32::Binary32;
use crate::cache::{has_room, move_on, moved, start_of, SteppingKeyValueCache};
use crate::config::Glm4MoeLiteModelArgs;
use crate::error::{ModelError, Module};
use crate::tape::{apply1, apply2, apply4, LayerPart, Op, Site, Span, Tape, Tensor};
use crate::weights::{QLinear, RmsNorm};

verus! {

/// The epsilon of the normalisations inside the attention: 0.000001.
pub const LATENT_NORM_EPS_BITS: u32 = 0x3586_37BD;

/// The attention of one layer.
#[derive(Debug, Clone, Copy, PartialEq, Eq, Structural)]
pub struct Glm4MoeLiteAttention {
    pub q_a_proj: Option<QLinear>,
    pub q_a_layernorm: Option<RmsNorm>,
    pub q_b_proj: Option<QLinear>,
    pub q_proj: Option<QLinear>,
    pub kv_a_proj_with_mqa: QLinear,
    pub kv_a_layernorm: RmsNorm,
    pub kv_b_proj: QLinear,
    pub o_proj: QLinear,
    pub num_heads: i32,
    pub kv_lora_rank: i32,
    pub qk_nope_head_dim: i32,
    pub qk_rope_head_dim: i32,
    pub v_head_dim: i32,
    /// The width of a query head. The scores are scaled by the inverse of its
    /// square root.
    pub head_dim: i16,
    pub rope_base: Binary32,
    pub use_compressed_query: bool,
}

/// The leading dimensions of a tensor: its batch size and its length.
pub open spec fn leading(x: Tensor) -> Tensor {
    apply1(Op::LeadingDims, x)
}

/// A part of the features of the heads.
pub open spec fn head_slice(x: Tensor, span: Span) -> Tensor {
    apply1(Op::Slice { rank: 4, axis: 3, span }, x)
}

/// A part of the features of a sequence.
pub open spec fn feature_slice(x: Tensor, span: Span) -> Tensor {
    apply1(Op::Slice { rank: 3, axis: 2, span }, x)
}

/// Features cut into heads, with the heads moved before the sequence.
pub open spec fn to_heads(x: Tensor, like: Tensor, heads: i32, width: i32) -> Tensor {
    apply1(Op::SwapHeads, apply2(Op::SplitHeads { heads, width }, x, leading(like)))
}

/// The batch size and the sequence length of a tensor of the given shape.
pub fn leading_dims(shape: &[i32]) -> (res: Result<(i32, i32), ModelError>)
    ensures
        shape@.len() >= 2 ==> res == Ok::<(i32, i32), ModelError>((shape@[0], shape@[1])),
        shape@.len() < 2 ==> res == Err::<(i32, i32), ModelError>(ModelError::TooFewDims),
{
    if shape.len() < 2 {
        return Err(ModelError::TooFewDims);
    }
    Ok((shape[0], shape[1]))
}

impl Glm4MoeLiteAttention {
    /// The attention that the settings call for.
    pub open spec fn layout(args: Glm4MoeLiteModelArgs, ql: i32, qb: i32) -> Self {
        let linear = QLinear { group_size: ql, bits: qb };
        let eps = Binary32 { bits: LATENT_NORM_EPS_BITS };
        Glm4MoeLiteAttention {
            q_a_proj: if args.q_lora_rank is Some {
                Some(linear)
            } else {
                None
            },
            q_a_layernorm: match args.q_lora_rank {
                Some(rank) => Some(RmsNorm { dims: rank, eps }),
                None => None,
            },
            q_b_proj: if args.q_lora_rank is Some {
                Some(linear)
            } else {
                None
            },
            q_proj: if args.q_lora_rank is Some {
                None
            } else {
                Some(linear)
            },
            kv_a_proj_with_mqa: linear,
            kv_a_layernorm: RmsNorm { dims: args.kv_lora_rank, eps },
            kv_b_proj: linear,
            o_proj: linear,
            num_heads: args.num_attention_heads,
            kv_lora_rank: args.kv_lora_rank,
            qk_nope_head_dim: args.qk_nope_head_dim,
            qk_rope_head_dim: args.qk_rope_head_dim,
            v_head_dim: args.v_head_dim,
            head_dim: args.head_width() as i16,
            rope_base: args.rope_theta,
            use_compressed_query: args.q_lora_rank is Some,
        }
    }

    /// Lays out the attention of a layer.
    pub fn new(args: &Glm4MoeLiteModelArgs, ql: i32, qb: i32) -> (res: Result<Self, ModelError>)
        requires
            i32::MIN <= args.head_width() <= i32::MAX,
        ensures
            i16::MIN <= args.head_width() <= i16::MAX ==> res == Ok::<Self, ModelError>(
                Self::layout(*args, ql, qb),
            ),
            !(i16::MIN <= args.head_width() <= i16::MAX) ==> res == Err::<Self, ModelError>(
                ModelError::QHeadDimOutOfRange,
            ),
    {
        let q_head_dim: i32 = args.q_head_dim();
        if q_head_dim < -0x8000 || q_head_dim > 0x7FFF {
            return Err(ModelError::QHeadDimOutOfRange);
        }
        let head_dim: i16 = q_head_dim as i16;
        let linear = QLinear { group_size: ql, bits: qb };
        let eps = Binary32 { bits: LATENT_NORM_EPS_BITS };
        let (q_a_proj, q_a_layernorm, q_b_proj, q_proj) = match args.q_lora_rank {
            Some(q_lora_rank) => (
                Some(linear),
                Some(RmsNorm { dims: q_lora_rank, eps }),
                Some(linear),
                None,
            ),
            None => (None, None, None, Some(linear)),
        };
        Ok(
            Glm4MoeLiteAttention {
                q_a_proj,
                q_a_layernorm,
                q_b_proj,
                q_proj,
                kv_a_proj_with_mqa: linear,
                kv_a_layernorm: RmsNorm { dims: args.kv_lora_rank, eps },
                kv_b_proj: linear,
                o_proj: linear,
                num_heads: args.num_attention_heads,
                kv_lora_rank: args.kv_lora_rank,
                qk_nope_head_dim: args.qk_nope_head_dim,
                qk_rope_head_dim: args.qk_rope_head_dim,
                v_head_dim: args.v_head_dim,
                head_dim,
                rope_base: args.rope_theta,
                use_compressed_query: args.q_lora_rank.is_some(),
            },
        )
    }

    /// The first module that the attention calls for and does not have.
    pub open spec fn missing(self) -> Option<Module> {
        if self.use_compressed_query {
            if self.q_a_proj is None {
                Some(Module::QAProj)
            } else if self.q_a_layernorm is None {
                Some(Module::QALayernorm)
            } else if self.q_b_proj is None {
                Some(Module::QBProj)
            } else {
                None
            }
        } else if self.q_proj is None {
            Some(Module::QProj)
        } else {
            None
        }
    }

    /// If no module is missing, the width of a query head fits its type.
    pub open spec fn fits(self) -> bool {
        self.missing() is None ==> i32::MIN <= self.qk_nope_head_dim + self.qk_rope_head_dim
            <= i32::MAX
    }

    /// The projected queries of all heads, straight or by way of a compressed
    /// query.
    pub open spec fn projected_query(self, layer: usize, x: Tensor) -> Tensor {
        if self.use_compressed_query {
            apply1(
                Op::QLinear(Site::Layer(layer, LayerPart::QBProj)),
                apply1(
                    Op::RmsNorm(Site::Layer(layer, LayerPart::QALayernorm)),
                    apply1(Op::QLinear(Site::Layer(layer, LayerPart::QAProj)), x),
                ),
            )
        } else {
            apply1(Op::QLinear(Site::Layer(layer, LayerPart::QProj)), x)
        }
    }

    /// The queries by head.
    pub open spec fn head_queries(self, layer: usize, x: Tensor) -> Tensor {
        to_heads(
            self.projected_query(layer, x),
            x,
            self.num_heads,
            (self.qk_nope_head_dim + self.qk_rope_head_dim) as i32,
        )
    }

    /// The rotary part of queries or keys at its positions.
    pub open spec fn rotated(self, x: Tensor, cache: Option<SteppingKeyValueCache>) -> Tensor {
        apply1(
            Op::Rope { width: self.qk_rope_head_dim, base: self.rope_base, offset: start_of(cache) },
            x,
        )
    }

    /// The queries: each head's plain part, with its rotary part behind it.
    pub open spec fn queries(
        self,
        layer: usize,
        x: Tensor,
        cache: Option<SteppingKeyValueCache>,
    ) -> Tensor {
        let q = self.head_queries(layer, x);
        apply2(
            Op::Concat,
            head_slice(q, Span::To(self.qk_nope_head_dim)),
            self.rotated(head_slice(q, Span::From(self.qk_nope_head_dim)), cache),
        )
    }

    /// The compressed keys and values, with the rotary key behind them.
    pub open spec fn compressed_kv(self, layer: usize, x: Tensor) -> Tensor {
        apply1(Op::QLinear(Site::Layer(layer, LayerPart::KvAProjWithMqa)), x)
    }

    /// The rotary key that all heads share.
    pub open spec fn shared_key(self, layer: usize, x: Tensor) -> Tensor {
        to_heads(
            feature_slice(self.compressed_kv(layer, x), Span::From(self.kv_lora_rank)),
            x,
            1,
            self.qk_rope_head_dim,
        )
    }

    /// The keys and values by head, out of their compressed form.
    pub open spec fn head_kv(self, layer: usize, x: Tensor) -> Tensor {
        let latent = feature_slice(self.compressed_kv(layer, x), Span::To(self.kv_lora_rank));
        to_heads(
            apply1(
                Op::QLinear(Site::Layer(layer, LayerPart::KvBProj)),
                apply1(Op::RmsNorm(Site::Layer(layer, LayerPart::KvALayernorm)), latent),
            ),
            x,
            self.num_heads,
            (-1) as i32,
        )
    }

    /// The keys of this pass: each head's plain part, with the shared rotary
    /// key behind it.
    pub open spec fn new_keys(
        self,
        layer: usize,
        x: Tensor,
        cache: Option<SteppingKeyValueCache>,
    ) -> Tensor {
        apply2(
            Op::Concat,
            head_slice(self.head_kv(layer, x), Span::To(self.qk_nope_head_dim)),
            apply2(
                Op::BroadcastHeads { heads: self.num_heads, width: self.qk_rope_head_dim },
                self.rotated(self.shared_key(layer, x), cache),
                leading(x),
            ),
        )
    }

    /// The values of this pass.
    pub open spec fn new_values(self, layer: usize, x: Tensor) -> Tensor {
        head_slice(self.head_kv(layer, x), Span::From(self.qk_nope_head_dim))
    }

    /// The outcome of handing the new keys and values to the cache.
    pub open spec fn cache_update(
        self,
        layer: usize,
        x: Tensor,
        cache: Option<SteppingKeyValueCache>,
    ) -> Tensor {
        apply2(
            Op::CacheUpdate { layer, offset: start_of(cache) },
            self.new_keys(layer, x, cache),
            self.new_values(layer, x),
        )
    }

    /// The keys to attend to: those of the cache if there is one.
    pub open spec fn keys(
        self,
        layer: usize,
        x: Tensor,
        cache: Option<SteppingKeyValueCache>,
    ) -> Tensor {
        if cache is Some {
            apply1(Op::FetchedKeys, self.cache_update(layer, x, cache))
        } else {
            self.new_keys(layer, x, cache)
        }
    }

    /// The values to attend to: those of the cache if there is one.
    pub open spec fn values(
        self,
        layer: usize,
        x: Tensor,
        cache: Option<SteppingKeyValueCache>,
    ) -> Tensor {
        if cache is Some {
            apply1(Op::FetchedValues, self.cache_update(layer, x, cache))
        } else {
            self.new_values(layer, x)
        }
    }

    /// What was attended to, with the heads merged and projected.
    pub open spec fn projected_output(self, layer: usize, dims: Tensor, attended: Tensor) -> Tensor {
        apply1(
            Op::QLinear(Site::Layer(layer, LayerPart::OProj)),
            apply2(Op::MergeHeads, apply1(Op::SwapHeads, attended), dims),
        )
    }

    /// What the attention makes of `x`.
    #[verifier::opaque]
    pub open spec fn output(
        self,
        layer: usize,
        x: Tensor,
        mask: Tensor,
        cache: Option<SteppingKeyValueCache>,
    ) -> Tensor {
        let attended = apply4(
            Op::Attend { head_dim: self.head_dim },
            self.queries(layer, x, cache),
            self.keys(layer, x, cache),
            self.values(layer, x, cache),
            mask,
        );
        self.projected_output(layer, leading(x), attended)
    }

    /// The cache as the attention leaves it: with `length` more positions, unless
    /// a module is missing.
    pub open spec fn cache_left(
        self,
        cache: Option<SteppingKeyValueCache>,
        length: int,
    ) -> Option<SteppingKeyValueCache> {
        if self.missing() is None {
            moved(cache, length)
        } else {
            cache
        }
    }

    /// The operations that project the queries.
    pub open spec fn query_ops(self, layer: usize) -> Seq<Op> {
        if self.use_compressed_query {
            seq![
                Op::QLinear(Site::Layer(layer, LayerPart::QAProj)),
                Op::RmsNorm(Site::Layer(layer, LayerPart::QALayernorm)),
                Op::QLinear(Site::Layer(layer, LayerPart::QBProj)),
            ]
        } else {
            seq![Op::QLinear(Site::Layer(layer, LayerPart::QProj))]
        }
    }

    /// The operations that cut queries, keys and values into heads.
    pub open spec fn head_ops(self, layer: usize) -> Seq<Op> {
        let nope = self.qk_nope_head_dim;
        seq![
            Op::SplitHeads {
                heads: self.num_heads,
                width: (self.qk_nope_head_dim + self.qk_rope_head_dim) as i32,
            },
            Op::SwapHeads,
            Op::Slice { rank: 4, axis: 3, span: Span::To(nope) },
            Op::Slice { rank: 4, axis: 3, span: Span::From(nope) },
            Op::QLinear(Site::Layer(layer, LayerPart::KvAProjWithMqa)),
            Op::Slice { rank: 3, axis: 2, span: Span::To(self.kv_lora_rank) },
            Op::Slice { rank: 3, axis: 2, span: Span::From(self.kv_lora_rank) },
            Op::SplitHeads { heads: 1, width: self.qk_rope_head_dim },
            Op::SwapHeads,
            Op::RmsNorm(Site::Layer(layer, LayerPart::KvALayernorm)),
            Op::QLinear(Site::Layer(layer, LayerPart::KvBProj)),
            Op::SplitHeads { heads: self.num_heads, width: (-1) as i32 },
            Op::SwapHeads,
            Op::Slice { rank: 4, axis: 3, span: Span::To(nope) },
            Op::Slice { rank: 4, axis: 3, span: Span::From(nope) },
        ]
    }

    /// The operations that place queries and keys at their positions.
    pub open spec fn position_ops(self, cache: Option<SteppingKeyValueCache>) -> Seq<Op> {
        let rope = Op::Rope {
            width: self.qk_rope_head_dim,
            base: self.rope_base,
            offset: start_of(cache),
        };
        seq![
            rope,
            rope,
            Op::BroadcastHeads { heads: self.num_heads, width: self.qk_rope_head_dim },
            Op::Concat,
            Op::Concat,
        ]
    }

    /// The operations that hand keys and values to the cache, if there is one.
    pub open spec fn cache_ops(layer: usize, cache: Option<SteppingKeyValueCache>) -> Seq<Op> {
        if cache is Some {
            seq![
                Op::CacheUpdate { layer, offset: start_of(cache) },
                Op::FetchedKeys,
                Op::FetchedValues,
            ]
        } else {
            seq![]
        }
    }

    /// The operations that attend and project the outcome.
    pub open spec fn output_ops(self, layer: usize) -> Seq<Op> {
        seq![
            Op::Attend { head_dim: self.head_dim },
            Op::SwapHeads,
            Op::MergeHeads,
            Op::QLinear(Site::Layer(layer, LayerPart::OProj)),
        ]
    }

    /// All operations of the attention, in order. It stops where a module is
    /// missing.
    #[verifier::opaque]
    pub open spec fn ops(self, layer: usize, cache: Option<SteppingKeyValueCache>) -> Seq<Op> {
        if self.missing() is Some {
            seq![Op::LeadingDims]
        } else {
            seq![Op::LeadingDims] + self.query_ops(layer) + self.head_ops(layer)
                + self.position_ops(cache) + Self::cache_ops(layer, cache) + self.output_ops(layer)
        }
    }

    /// Records the projection of the queries.
    fn record_query(&self, tape: &mut Tape, layer: usize, x: usize) -> (res: Result<
        usize,
        ModelError,
    >)
        requires
            old(tape).wf(),
            x < old(tape).len(),
        ensures
            final(tape).extends(*old(tape)),
            match self.missing() {
                Some(module) => {
                    &&& res == Err::<usize, ModelError>(ModelError::Missing(module))
                    &&& *final(tape) == *old(tape)
                },
                None => {
                    &&& res matches Ok(place)
                    &&& place < final(tape).len()
                    &&& final(tape).value(place as int) == self.projected_query(
                        layer,
                        old(tape).value(x as int),
                    )
                    &&& final(tape).ops() == old(tape).ops() + self.query_ops(layer)
                },
            },
    {
        if self.use_compressed_query {
            if self.q_a_proj.is_none() {
                return Err(ModelError::Missing(Module::QAProj));
            }
            if self.q_a_layernorm.is_none() {
                return Err(ModelError::Missing(Module::QALayernorm));
            }
            if self.q_b_proj.is_none() {
                return Err(ModelError::Missing(Module::QBProj));
            }
            let qa: usize = tape.record1(Op::QLinear(Site::Layer(layer, LayerPart::QAProj)), x);
            let qn: usize = tape.record1(
                Op::RmsNorm(Site::Layer(layer, LayerPart::QALayernorm)),
                qa,
            );
            let qb: usize = tape.record1(Op::QLinear(Site::Layer(layer, LayerPart::QBProj)), qn);
            assert(tape.ops() =~= old(tape).ops() + self.query_ops(layer));
            Ok(qb)
        } else {
            if self.q_proj.is_none() {
                return Err(ModelError::Missing(Module::QProj));
            }
            let q: usize = tape.record1(Op::QLinear(Site::Layer(layer, LayerPart::QProj)), x);
            assert(tape.ops() =~= old(tape).ops() + self.query_ops(layer));
            Ok(q)
        }
    }

    /// Records how queries, keys and values are cut into heads: the plain and
    /// the rotary part of the queries, the shared rotary key, the plain part of
    /// the keys, and the values.
    fn record_heads(
        &self,
        tape: &mut Tape,
        layer: usize,
        x: usize,
        dims: usize,
        projected: usize,
    ) -> (parts: (usize, usize, usize, usize, usize))
        requires
            self.missing() is None,
            self.fits(),
            old(tape).wf(),
            x < old(tape).len(),
            dims < old(tape).len(),
            projected < old(tape).len(),
            old(tape).value(dims as int) == leading(old(tape).value(x as int)),
            old(tape).value(projected as int) == self.projected_query(
                layer,
                old(tape).value(x as int),
            ),
        ensures
            final(tape).extends(*old(tape)),
            final(tape).ops() == old(tape).ops() + self.head_ops(layer),
            parts.0 < final(tape).len(),
            parts.1 < final(tape).len(),
            parts.2 < final(tape).len(),
            parts.3 < final(tape).len(),
            parts.4 < final(tape).len(),
            ({
                let xv = old(tape).value(x as int);
                let nope = self.qk_nope_head_dim;
                let q = self.head_queries(layer, xv);
                let kv = self.head_kv(layer, xv);
                &&& final(tape).value(parts.0 as int) == head_slice(q, Span::To(nope))
                &&& final(tape).value(parts.1 as int) == head_slice(q, Span::From(nope))
                &&& final(tape).value(parts.2 as int) == self.shared_key(layer, xv)
                &&& final(tape).value(parts.3 as int) == head_slice(kv, Span::To(nope))
                &&& final(tape).value(parts.4 as int) == self.new_values(layer, xv)
            }),
    {
        let nope: i32 = self.qk_nope_head_dim;
        let to_nope = Op::Slice { rank: 4, axis: 3, span: Span::To(nope) };
        let from_nope = Op::Slice { rank: 4, axis: 3, span: Span::From(nope) };

        let q_split: usize = tape.record2(
            Op::SplitHeads { heads: self.num_heads, width: nope + self.qk_rope_head_dim },
            projected,
            dims,
        );
        let q: usize = tape.record1(Op::SwapHeads, q_split);
        let q_nope: usize = tape.record1(to_nope, q);
        let q_pe_raw: usize = tape.record1(from_nope, q);

        let compressed: usize = tape.record1(
            Op::QLinear(Site::Layer(layer, LayerPart::KvAProjWithMqa)),
            x,
        );
        let latent: usize = tape.record1(
            Op::Slice { rank: 3, axis: 2, span: Span::To(self.kv_lora_rank) },
            compressed,
        );
        let k_pe_flat: usize = tape.record1(
            Op::Slice { rank: 3, axis: 2, span: Span::From(self.kv_lora_rank) },
            compressed,
        );
        let k_pe_split: usize = tape.record2(
            Op::SplitHeads { heads: 1, width: self.qk_rope_head_dim },
            k_pe_flat,
            dims,
        );
        let k_pe_raw: usize = tape.record1(Op::SwapHeads, k_pe_split);

        let normed: usize = tape.record1(
            Op::RmsNorm(Site::Layer(layer, LayerPart::KvALayernorm)),
            latent,
        );
        let kv_flat: usize = tape.record1(
            Op::QLinear(Site::Layer(layer, LayerPart::KvBProj)),
            normed,
        );
        let kv_split: usize = tape.record2(
            Op::SplitHeads { heads: self.num_heads, width: -1 },
            kv_flat,
            dims,
        );
        let kv: usize = tape.record1(Op::SwapHeads, kv_split);
        let k_nope: usize = tape.record1(to_nope, kv);
        let values: usize = tape.record1(from_nope, kv);
        assert(tape.ops() =~= old(tape).ops() + self.head_ops(layer));
        (q_nope, q_pe_raw, k_pe_raw, k_nope, values)
    }

    /// Records how queries and keys are placed at their positions and put
    /// together.
    fn record_positions(
        &self,
        tape: &mut Tape,
        dims: usize,
        parts: (usize, usize, usize, usize),
        cache: Option<SteppingKeyValueCache>,
    ) -> (res: (usize, usize))
        requires
            old(tape).wf(),
            dims < old(tape).len(),
            parts.0 < old(tape).len(),
            parts.1 < old(tape).len(),
            parts.2 < old(tape).len(),
            parts.3 < old(tape).len(),
        ensures
            final(tape).extends(*old(tape)),
            final(tape).ops() == old(tape).ops() + self.position_ops(cache),
            res.0 < final(tape).len(),
            res.1 < final(tape).len(),
            final(tape).value(res.0 as int) == apply2(
                Op::Concat,
                old(tape).value(parts.0 as int),
                self.rotated(old(tape).value(parts.1 as int), cache),
            ),
            final(tape).value(res.1 as int) == apply2(
                Op::Concat,
                old(tape).value(parts.3 as int),
                apply2(
                    Op::BroadcastHeads { heads: self.num_heads, width: self.qk_rope_head_dim },
                    self.rotated(old(tape).value(parts.2 as int), cache),
                    old(tape).value(dims as int),
                ),
            ),
    {
        let (q_nope, q_pe_raw, k_pe_raw, k_nope) = parts;
        let offset: i32 = match cache {
            Some(c) => c.offset,
            None => 0,
        };
        let rope = Op::Rope { width: self.qk_rope_head_dim, base: self.rope_base, offset };
        let q_pe: usize = tape.record1(rope, q_pe_raw);
        let k_pe: usize = tape.record1(rope, k_pe_raw);
        let k_pe_expanded: usize = tape.record2(
            Op::BroadcastHeads { heads: self.num_heads, width: self.qk_rope_head_dim },
            k_pe,
            dims,
        );
        let keys: usize = tape.record2(Op::Concat, k_nope, k_pe_expanded);
        let queries: usize = tape.record2(Op::Concat, q_nope, q_pe);
        assert(tape.ops() =~= old(tape).ops() + self.position_ops(cache));
        (queries, keys)
    }

    /// Records how keys and values are handed to the cache, if there is one;
    /// returns the places of those to attend to.
    fn record_cache(
        tape: &mut Tape,
        layer: usize,
        new_keys: usize,
        new_values: usize,
        cache: Option<SteppingKeyValueCache>,
    ) -> (res: (usize, usize))
        requires
            old(tape).wf(),
            new_keys < old(tape).len(),
            new_values < old(tape).len(),
        ensures
            final(tape).extends(*old(tape)),
            final(tape).ops() == old(tape).ops() + Self::cache_ops(layer, cache),
            res.0 < final(tape).len(),
            res.1 < final(tape).len(),
            ({
                let k = old(tape).value(new_keys as int);
                let v = old(tape).value(new_values as int);
                let update = apply2(Op::CacheUpdate { layer, offset: start_of(cache) }, k, v);
                if cache is Some {
                    &&& final(tape).value(res.0 as int) == apply1(Op::FetchedKeys, update)
                    &&& final(tape).value(res.1 as int) == apply1(Op::FetchedValues, update)
                } else {
                    &&& final(tape).value(res.0 as int) == k
                    &&& final(tape).value(res.1 as int) == v
                }
            }),
    {
        match cache {
            Some(c) => {
                let update: usize = tape.record2(
                    Op::CacheUpdate { layer, offset: c.offset },
                    new_keys,
                    new_values,
                );
                let keys: usize = tape.record1(Op::FetchedKeys, update);
                let values: usize = tape.record1(Op::FetchedValues, update);
                assert(tape.ops() =~= old(tape).ops() + Self::cache_ops(layer, cache));
                (keys, values)
            },
            None => {
                assert(tape.ops() =~= old(tape).ops() + Self::cache_ops(layer, cache));
                (new_keys, new_values)
            },
        }
    }

    /// Records the attention proper and the projection of its outcome.
    fn record_output(
        &self,
        tape: &mut Tape,
        layer: usize,
        dims: usize,
        attended_to: (usize, usize, usize, usize),
    ) -> (place: usize)
        requires
            old(tape).wf(),
            dims < old(tape).len(),
            attended_to.0 < old(tape).len(),
            attended_to.1 < old(tape).len(),
            attended_to.2 < old(tape).len(),
            attended_to.3 < old(tape).len(),
        ensures
            final(tape).extends(*old(tape)),
            final(tape).ops() == old(tape).ops() + self.output_ops(layer),
            place < final(tape).len(),
            final(tape).value(place as int) == self.projected_output(
                layer,
                old(tape).value(dims as int),
                apply4(
                    Op::Attend { head_dim: self.head_dim },
                    old(tape).value(attended_to.0 as int),
                    old(tape).value(attended_to.1 as int),
                    old(tape).value(attended_to.2 as int),
                    old(tape).value(attended_to.3 as int),
                ),
            ),
    {
        let (queries, keys, values, mask) = attended_to;
        let attended: usize = tape.record4(
            Op::Attend { head_dim: self.head_dim },
            queries,
            keys,
            values,
            mask,
        );
        let swapped: usize = tape.record1(Op::SwapHeads, attended);
        let merged: usize = tape.record2(Op::MergeHeads, swapped, dims);
        let output: usize = tape.record1(
            Op::QLinear(Site::Layer(layer, LayerPart::OProj)),
            merged,
        );
        assert(tape.ops() =~= old(tape).ops() + self.output_ops(layer));
        output
    }

    /// Records the attention of layer `layer` over the hidden states at place
    /// `x`, under the mask at place `mask`; returns the place of the outcome. The
    /// cache takes up `length` positions: as many as the hidden states have.
    pub fn forward(
        &self,
        tape: &mut Tape,
        layer: usize,
        x: usize,
        mask: usize,
        cache: &mut Option<SteppingKeyValueCache>,
        length: i32,
    ) -> (res: Result<usize, ModelError>)
        requires
            self.fits(),
            self.missing() is None ==> has_room(*old(cache), length as int),
            old(tape).wf(),
            x < old(tape).len(),
            mask < old(tape).len(),
        ensures
            final(tape).extends(*old(tape)),
            final(tape).ops() == old(tape).ops() + self.ops(layer, *old(cache)),
            *final(cache) == self.cache_left(*old(cache), length as int),
            match self.missing() {
                Some(module) => {
                    &&& res == Err::<usize, ModelError>(ModelError::Missing(module))
                    &&& final(tape).value(final(tape).len() - 1) == leading(
                        old(tape).value(x as int),
                    )
                },
                None => {
                    &&& res matches Ok(place)
                    &&& place < final(tape).len()
                    &&& final(tape).value(place as int) == self.output(
                        layer,
                        old(tape).value(x as int),
                        old(tape).value(mask as int),
                        *old(cache),
                    )
                },
            },
    {
        let ghost start = old(tape).ops();
        let dims: usize = tape.record1(Op::LeadingDims, x);
        assert(tape.ops() =~= start + seq![Op::LeadingDims]);
        let projected: usize = match self.record_query(tape, layer, x) {
            Ok(place) => place,
            Err(e) => {
                reveal(Glm4MoeLiteAttention::ops);
                return Err(e);
            },
        };
        let (q_nope, q_pe_raw, k_pe_raw, k_nope, new_values) = self.record_heads(
            tape,
            layer,
            x,
            dims,
            projected,
        );
        let given: Option<SteppingKeyValueCache> = *cache;
        let (queries, new_keys) = self.record_positions(
            tape,
            dims,
            (q_nope, q_pe_raw, k_pe_raw, k_nope),
            given,
        );
        let (keys, values) = Self::record_cache(tape, layer, new_keys, new_values, given);
        move_on(cache, length);
        let output: usize = self.record_output(tape, layer, dims, (queries, keys, values, mask));
        proof {
            reveal(Glm4MoeLiteAttention::output);
            reveal(Glm4MoeLiteAttention::ops);
            lemma_join(
                start,
                seq![Op::LeadingDims],
                self.query_ops(layer),
                self.head_ops(layer),
                self.position_ops(given),
                Self::cache_ops(layer, given),
                self.output_ops(layer),
            );
        }
        Ok(output)
    }
}

/// Operations that were recorded one stretch after the other.
proof fn lemma_join(
    start: Seq<Op>,
    a: Seq<Op>,
    b: Seq<Op>,
    c: Seq<Op>,
    d: Seq<Op>,
    e: Seq<Op>,
    f: Seq<Op>,
)
    ensures
        start + a + b + c + d + e + f == start + (a + b + c + d + e + f),
{
    assert(start + a + b + c + d + e + f =~= start + (a + b + c + d + e + f));
}

} // verus!
