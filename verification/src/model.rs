//! The whole model: embedding, decoder layers, final normalisation and output
//! projection.
use vstd::prelude::*;

use crate::cache::SteppingKeyValueCache;
use crate::config::Glm4MoeLiteModelArgs;
use crate::decoder::Glm4MoeLiteDecoderLayer;
use crate::error::{ModelError, Module};
use crate::tape::{apply0, apply1, Op, Site, Span, Tape, Tensor};
use crate::weights::{QEmbedding, QLinear, RmsNorm};

verus! {

/// The model without its output projection.
#[derive(Debug)]
pub struct Glm4MoeLiteInner {
    pub embed_tokens: QEmbedding,
    pub layers: Vec<Glm4MoeLiteDecoderLayer>,
    pub norm: RmsNorm,
}

/// The layers that the settings call for.
pub open spec fn layer_layouts(
    args: Glm4MoeLiteModelArgs,
    ql: i32,
    qb: i32,
) -> Seq<Glm4MoeLiteDecoderLayer> {
    Seq::new(
        if args.num_hidden_layers > 0 {
            args.num_hidden_layers as nat
        } else {
            0
        },
        |i: int| Glm4MoeLiteDecoderLayer::layout(args, i, ql, qb),
    )
}

impl Glm4MoeLiteInner {
    /// The model has the embedding, the layers and the normalisation that the
    /// settings call for.
    pub open spec fn is_layout(self, args: Glm4MoeLiteModelArgs, ql: i32, qb: i32) -> bool {
        &&& self.embed_tokens == (QEmbedding { group_size: ql, bits: qb })
        &&& self.layers@ == layer_layouts(args, ql, qb)
        &&& self.norm == (RmsNorm { dims: args.hidden_size, eps: args.rms_norm_eps })
    }

    /// Lays out the layers and what stands around them.
    pub fn new(args: &Glm4MoeLiteModelArgs, ql: i32, qb: i32) -> (res: Result<Self, ModelError>)
        requires
            args.num_hidden_layers > 0 ==> i32::MIN <= args.head_width() <= i32::MAX,
        ensures
            match res {
                Ok(inner) => {
                    &&& inner.is_layout(*args, ql, qb)
                    &&& args.num_hidden_layers > 0 ==> i16::MIN <= args.head_width() <= i16::MAX
                },
                Err(e) => {
                    &&& e == ModelError::QHeadDimOutOfRange
                    &&& args.num_hidden_layers > 0
                    &&& !(i16::MIN <= args.head_width() <= i16::MAX)
                },
            },
    {
        let mut layers: Vec<Glm4MoeLiteDecoderLayer> = Vec::new();
        let mut i: i32 = 0;
        while i < args.num_hidden_layers
            invariant
                0 <= i,
                i <= args.num_hidden_layers || i == 0,
                args.num_hidden_layers > 0 ==> i32::MIN <= args.head_width() <= i32::MAX,
                i > 0 ==> i16::MIN <= args.head_width() <= i16::MAX,
                layers@.len() == i,
                forall|k: int|
                    0 <= k < i ==> #[trigger] layers@[k] == Glm4MoeLiteDecoderLayer::layout(
                        *args,
                        k,
                        ql,
                        qb,
                    ),
            decreases args.num_hidden_layers - i,
        {
            match Glm4MoeLiteDecoderLayer::new(args, i, ql, qb) {
                Ok(layer) => {
                    layers.push(layer);
                },
                Err(e) => {
                    return Err(e);
                },
            }
            i = i + 1;
        }
        assert(layers@ =~= layer_layouts(*args, ql, qb));
        Ok(
            Glm4MoeLiteInner {
                embed_tokens: QEmbedding { group_size: ql, bits: qb },
                layers,
                norm: RmsNorm { dims: args.hidden_size, eps: args.rms_norm_eps },
            },
        )
    }
}

/// What the first `n` layers make of `x`.
pub open spec fn stack_output(
    layers: Seq<Glm4MoeLiteDecoderLayer>,
    caches: Seq<Option<SteppingKeyValueCache>>,
    x: Tensor,
    mask: Tensor,
    n: nat,
) -> Tensor
    decreases n,
{
    if n == 0 {
        x
    } else {
        let i = (n - 1) as nat;
        layers[i as int].output(
            i as usize,
            stack_output(layers, caches, x, mask, i),
            mask,
            caches[i as int],
        )
    }
}

/// The first module that one of the first `n` layers calls for and does not
/// have.
pub open spec fn stack_missing(layers: Seq<Glm4MoeLiteDecoderLayer>, n: nat) -> Option<Module>
    decreases n,
{
    if n == 0 {
        None
    } else {
        match stack_missing(layers, (n - 1) as nat) {
            Some(module) => Some(module),
            None => layers[n - 1].missing(),
        }
    }
}

/// The last result ahead of the first module that is missing in the first `n`
/// layers.
pub open spec fn stack_stopped_at(
    layers: Seq<Glm4MoeLiteDecoderLayer>,
    caches: Seq<Option<SteppingKeyValueCache>>,
    x: Tensor,
    mask: Tensor,
    n: nat,
) -> Tensor
    decreases n,
{
    if n == 0 {
        x
    } else {
        let i = (n - 1) as nat;
        if stack_missing(layers, i) is Some {
            stack_stopped_at(layers, caches, x, mask, i)
        } else {
            layers[i as int].stopped_at(
                i as usize,
                stack_output(layers, caches, x, mask, i),
                mask,
                caches[i as int],
            )
        }
    }
}

/// The operations of the first `n` layers, in order. They stop where a module
/// is missing.
pub open spec fn stack_ops(
    layers: Seq<Glm4MoeLiteDecoderLayer>,
    caches: Seq<Option<SteppingKeyValueCache>>,
    n: nat,
) -> Seq<Op>
    decreases n,
{
    if n == 0 {
        seq![]
    } else {
        let i = (n - 1) as nat;
        let before = stack_ops(layers, caches, i);
        if stack_missing(layers, i) is Some {
            before
        } else {
            before + layers[i as int].ops(i as usize, caches[i as int])
        }
    }
}

/// The caches as the first `n` layers leave them: each attention that is reached
/// and lacks no module has its cache take up `length` positions.
pub open spec fn stack_caches(
    layers: Seq<Glm4MoeLiteDecoderLayer>,
    caches: Seq<Option<SteppingKeyValueCache>>,
    length: int,
    n: nat,
) -> Seq<Option<SteppingKeyValueCache>>
    decreases n,
{
    if n == 0 {
        caches
    } else {
        let i = (n - 1) as nat;
        let before = stack_caches(layers, caches, length, i);
        if stack_missing(layers, i) is Some {
            before
        } else {
            before.update(
                i as int,
                layers[i as int].self_attn.cache_left(caches[i as int], length),
            )
        }
    }
}

/// The first `n` layers leave the caches of the other layers as they are.
pub proof fn lemma_stack_caches(
    layers: Seq<Glm4MoeLiteDecoderLayer>,
    caches: Seq<Option<SteppingKeyValueCache>>,
    length: int,
    n: nat,
)
    requires
        n <= caches.len(),
    ensures
        stack_caches(layers, caches, length, n).len() == caches.len(),
        forall|k: int|
            n <= k < caches.len() ==> #[trigger] stack_caches(layers, caches, length, n)[k]
                == caches[k],
    decreases n,
{
    if n > 0 {
        lemma_stack_caches(layers, caches, length, (n - 1) as nat);
    }
}

/// Behind a layer that lacks a module nothing changes.
proof fn lemma_stack_stops(
    layers: Seq<Glm4MoeLiteDecoderLayer>,
    caches: Seq<Option<SteppingKeyValueCache>>,
    x: Tensor,
    mask: Tensor,
    length: int,
    i: nat,
    n: nat,
)
    requires
        i <= n,
        stack_missing(layers, i) is Some,
    ensures
        stack_missing(layers, n) == stack_missing(layers, i),
        stack_ops(layers, caches, n) == stack_ops(layers, caches, i),
        stack_stopped_at(layers, caches, x, mask, n) == stack_stopped_at(
            layers,
            caches,
            x,
            mask,
            i,
        ),
        stack_caches(layers, caches, length, n) == stack_caches(layers, caches, length, i),
    decreases n,
{
    if i < n {
        lemma_stack_stops(layers, caches, x, mask, length, i, (n - 1) as nat);
    }
}

/// The causal language model.
#[derive(Debug)]
pub struct Glm4MoeLiteCausalLM {
    pub args: Glm4MoeLiteModelArgs,
    pub model: Glm4MoeLiteInner,
    pub lm_head: Option<QLinear>,
}

/// The caches that a forward pass works with: those it was given, or a new one
/// for each layer if it was given none.
pub open spec fn caches_in_use(
    given: Seq<Option<SteppingKeyValueCache>>,
    layers: nat,
) -> Seq<Option<SteppingKeyValueCache>> {
    if given.len() == 0 {
        Seq::new(layers, |i: int| Some(SteppingKeyValueCache { offset: 0 }))
    } else {
        given
    }
}

/// Gives each layer a new cache if there are no caches yet; fails if there are
/// caches, but not one entry for each layer.
pub fn prepare_caches(
    kv_cache: &mut Vec<Option<SteppingKeyValueCache>>,
    layers: usize,
) -> (res: Result<(), ModelError>)
    ensures
        final(kv_cache)@ == caches_in_use(old(kv_cache)@, layers as nat),
        res == if old(kv_cache)@.len() == 0 || old(kv_cache)@.len() == layers {
            Ok::<(), ModelError>(())
        } else {
            Err::<(), ModelError>(
                ModelError::CacheLengthMismatch { cache: old(kv_cache)@.len() as usize, layers },
            )
        },
{
    if kv_cache.len() == 0 {
        let mut i: usize = 0;
        while i < layers
            invariant
                i <= layers,
                kv_cache@.len() == i,
                forall|k: int|
                    0 <= k < i ==> #[trigger] kv_cache@[k] == Some(
                        SteppingKeyValueCache { offset: 0 },
                    ),
            decreases layers - i,
        {
            kv_cache.push(Some(SteppingKeyValueCache::new()));
            i = i + 1;
        }
        assert(kv_cache@ =~= caches_in_use(old(kv_cache)@, layers as nat));
        Ok(())
    } else if kv_cache.len() != layers {
        Err(ModelError::CacheLengthMismatch { cache: kv_cache.len(), layers })
    } else {
        Ok(())
    }
}

impl Glm4MoeLiteCausalLM {
    /// Why the settings are refused, if they are.
    pub open spec fn rejection(args: Glm4MoeLiteModelArgs) -> Option<ModelError> {
        if args.num_hidden_layers <= 0 {
            Some(ModelError::NumHiddenLayersNotPositive)
        } else if args.vocab_size <= 0 {
            Some(ModelError::VocabSizeNotPositive)
        } else if args.num_attention_heads <= 0 {
            Some(ModelError::NumAttentionHeadsNotPositive)
        } else if !(i16::MIN <= args.head_width() <= i16::MAX) {
            Some(ModelError::QHeadDimOutOfRange)
        } else {
            None
        }
    }

    /// The model is what the settings call for: the output projection is there
    /// unless the embedding serves as one.
    pub open spec fn is_layout(self, args: Glm4MoeLiteModelArgs) -> bool {
        &&& self.args == args
        &&& self.model.is_layout(args, args.group_size(), args.weight_bits())
        &&& self.lm_head == if args.tie_word_embeddings {
            None
        } else {
            Some(QLinear { group_size: args.group_size(), bits: args.weight_bits() })
        }
    }

    /// Lays out the model that the settings call for.
    pub fn new(args: Glm4MoeLiteModelArgs) -> (res: Result<Self, ModelError>)
        requires
            args.num_hidden_layers > 0 && args.vocab_size > 0 && args.num_attention_heads > 0
                ==> i32::MIN <= args.head_width() <= i32::MAX,
        ensures
            match Self::rejection(args) {
                Some(e) => res == Err::<Self, ModelError>(e),
                None => res matches Ok(model) && model.is_layout(args),
            },
    {
        if args.num_hidden_layers <= 0 {
            return Err(ModelError::NumHiddenLayersNotPositive);
        }
        if args.vocab_size <= 0 {
            return Err(ModelError::VocabSizeNotPositive);
        }
        if args.num_attention_heads <= 0 {
            return Err(ModelError::NumAttentionHeadsNotPositive);
        }
        let ql: i32 = match args.quantization {
            Some(q) => q.group_size,
            None => 64,
        };
        let qb: i32 = match args.quantization {
            Some(q) => q.bits,
            None => 4,
        };
        let model = match Glm4MoeLiteInner::new(&args, ql, qb) {
            Ok(inner) => inner,
            Err(e) => {
                return Err(e);
            },
        };
        let lm_head = if args.tie_word_embeddings {
            None
        } else {
            Some(QLinear { group_size: ql, bits: qb })
        };
        Ok(Glm4MoeLiteCausalLM { args, model, lm_head })
    }

    /// There are no caches yet, or one entry for each layer.
    pub open spec fn caches_match(self, given: Seq<Option<SteppingKeyValueCache>>) -> bool {
        given.len() == 0 || given.len() == self.model.layers@.len()
    }

    /// The sizes that a forward pass computes fit their types, in each layer that
    /// it reaches.
    pub open spec fn fits(self) -> bool {
        forall|i: int|
            0 <= i < self.model.layers@.len() && stack_missing(self.model.layers@, i as nat) is None
                ==> (#[trigger] self.model.layers@[i]).fits()
    }

    /// The caches have room for `length` more positions, in each layer that a
    /// forward pass reaches.
    pub open spec fn has_room(
        self,
        given: Seq<Option<SteppingKeyValueCache>>,
        length: int,
    ) -> bool {
        let caches = caches_in_use(given, self.model.layers@.len());
        forall|i: int|
            0 <= i < self.model.layers@.len() && stack_missing(self.model.layers@, i as nat) is None
                ==> (#[trigger] self.model.layers@[i]).has_room(caches[i], length)
    }

    /// The caches as a forward pass over `length` positions leaves them.
    pub open spec fn caches_left(
        self,
        given: Seq<Option<SteppingKeyValueCache>>,
        length: int,
    ) -> Seq<Option<SteppingKeyValueCache>> {
        let layers = self.model.layers@;
        if self.caches_match(given) {
            stack_caches(layers, caches_in_use(given, layers.len()), length, layers.len())
        } else {
            given
        }
    }

    /// Why a forward pass with the given caches fails, if it does.
    pub open spec fn failure(self, given: Seq<Option<SteppingKeyValueCache>>) -> Option<ModelError> {
        let layers = self.model.layers@;
        if !self.caches_match(given) {
            Some(
                ModelError::CacheLengthMismatch {
                    cache: given.len() as usize,
                    layers: layers.len() as usize,
                },
            )
        } else {
            match stack_missing(layers, layers.len()) {
                Some(module) => Some(ModelError::Missing(module)),
                None => None,
            }
        }
    }

    /// The embedded token ids.
    pub open spec fn embedded() -> Tensor {
        apply1(Op::Embed, apply0(Op::Inputs))
    }

    /// The cache of each layer as it was handed to the pass.
    pub open spec fn given_cache_ops(given: Seq<Option<SteppingKeyValueCache>>) -> Seq<Op> {
        Seq::new(given.len(), |i: int| Op::GivenCache { layer: i as usize, cache: given[i] })
    }

    /// The mask in use: the given one, or the one that the embedded token ids
    /// and the given caches call for.
    pub open spec fn mask_in_use(
        mask_given: bool,
        given: Seq<Option<SteppingKeyValueCache>>,
    ) -> Tensor {
        if mask_given {
            apply0(Op::GivenMask)
        } else {
            Tensor {
                op: Op::CreateMask,
                args: seq![Self::embedded()] + Self::given_cache_ops(given).map_values(
                    |op: Op| apply0(op),
                ),
            }
        }
    }

    /// The operations that give the mask in use, in order.
    pub open spec fn mask_ops(
        mask_given: bool,
        given: Seq<Option<SteppingKeyValueCache>>,
    ) -> Seq<Op> {
        if mask_given {
            seq![Op::GivenMask]
        } else {
            Self::given_cache_ops(given).push(Op::CreateMask)
        }
    }

    /// The normalised hidden states behind the last layer.
    pub open spec fn hidden(
        self,
        mask_given: bool,
        given: Seq<Option<SteppingKeyValueCache>>,
    ) -> Tensor {
        let layers = self.model.layers@;
        apply1(
            Op::RmsNorm(Site::FinalNorm),
            stack_output(
                layers,
                caches_in_use(given, layers.len()),
                Self::embedded(),
                Self::mask_in_use(mask_given, given),
                layers.len(),
            ),
        )
    }

    /// The last result of a pass that stops at a layer that lacks a module.
    pub open spec fn stopped_at(
        self,
        mask_given: bool,
        given: Seq<Option<SteppingKeyValueCache>>,
    ) -> Tensor {
        let layers = self.model.layers@;
        stack_stopped_at(
            layers,
            caches_in_use(given, layers.len()),
            Self::embedded(),
            Self::mask_in_use(mask_given, given),
            layers.len(),
        )
    }

    /// The scores of all tokens of the vocabulary, out of hidden states: by the
    /// output projection, or by the embedding where there is none.
    pub open spec fn logits(self, h: Tensor) -> Tensor {
        apply1(self.head_op(), h)
    }

    /// The operation that gives the scores.
    pub open spec fn head_op(self) -> Op {
        if self.lm_head is Some {
            Op::QLinear(Site::LmHead)
        } else {
            Op::EmbedAsLinear
        }
    }

    /// The operation that keeps the last position only.
    pub open spec fn last_position_op() -> Op {
        Op::Slice { rank: 3, axis: 1, span: Span::From((-1) as i32) }
    }

    /// The operations ahead of the layers, in order.
    pub open spec fn entry_ops(
        self,
        mask_given: bool,
        given: Seq<Option<SteppingKeyValueCache>>,
    ) -> Seq<Op> {
        let fill_ops = if given.len() == 0 {
            seq![Op::FillCaches { layers: self.model.layers@.len() as usize }]
        } else {
            seq![]
        };
        seq![Op::Inputs, Op::Embed] + Self::mask_ops(mask_given, given) + fill_ops
    }

    /// The operations that lead to the hidden states, in order. They stop where
    /// the pass fails.
    pub open spec fn hidden_ops(
        self,
        mask_given: bool,
        given: Seq<Option<SteppingKeyValueCache>>,
    ) -> Seq<Op> {
        let layers = self.model.layers@;
        let entry_ops = self.entry_ops(mask_given, given);
        let layer_ops = stack_ops(layers, caches_in_use(given, layers.len()), layers.len());
        if !self.caches_match(given) {
            entry_ops
        } else if self.failure(given) is Some {
            entry_ops + layer_ops
        } else {
            entry_ops + layer_ops.push(Op::RmsNorm(Site::FinalNorm))
        }
    }

    /// The tape starts with the token ids and their embedding, and the mask in use
    /// stands where `mask_ops` ends.
    pub open spec fn enters(
        tape: Tape,
        mask_given: bool,
        given: Seq<Option<SteppingKeyValueCache>>,
    ) -> bool {
        let mask = 1 + Self::mask_ops(mask_given, given).len();
        &&& mask < tape.len()
        &&& tape.value(0) == apply0(Op::Inputs)
        &&& tape.value(1) == Self::embedded()
        &&& tape.value(mask as int) == Self::mask_in_use(mask_given, given)
    }

    /// Records the mask in use, for the embedded token ids at place `embedded`;
    /// returns its place.
    fn record_mask(
        tape: &mut Tape,
        mask_given: bool,
        embedded: usize,
        kv_cache: &Vec<Option<SteppingKeyValueCache>>,
    ) -> (place: usize)
        requires
            old(tape).wf(),
            embedded < old(tape).len(),
            old(tape).value(embedded as int) == Self::embedded(),
        ensures
            final(tape).extends(*old(tape)),
            final(tape).ops() == old(tape).ops() + Self::mask_ops(mask_given, kv_cache@),
            place == final(tape).len() - 1,
            final(tape).value(place as int) == Self::mask_in_use(mask_given, kv_cache@),
    {
        let ghost start = *old(tape);
        let ghost given = Self::given_cache_ops(kv_cache@);
        if mask_given {
            let place: usize = tape.record0(Op::GivenMask);
            assert(tape.ops() =~= start.ops() + Self::mask_ops(mask_given, kv_cache@));
            return place;
        }
        let mut args: Vec<usize> = Vec::new();
        args.push(embedded);
        let mut i: usize = 0;
        assert(start.ops() + given.take(0) =~= start.ops());
        while i < kv_cache.len()
            invariant
                i <= kv_cache@.len(),
                given == Self::given_cache_ops(kv_cache@),
                tape.extends(start),
                tape.ops() == start.ops() + given.take(i as int),
                embedded < start.len(),
                args@.len() == i + 1,
                args@[0] == embedded,
                forall|k: int|
                    0 <= k < i ==> (#[trigger] args@[k + 1]) < tape.len() && tape.value(
                        args@[k + 1] as int,
                    ) == apply0(given[k]),
            decreases kv_cache@.len() - i,
        {
            let ghost before = *tape;
            let place: usize = tape.record0(Op::GivenCache { layer: i, cache: kv_cache[i] });
            args.push(place);
            assert(given.take(i + 1) =~= given.take(i as int).push(given[i as int]));
            assert(start.ops() + given.take(i + 1) =~= (start.ops() + given.take(i as int)).push(
                given[i as int],
            ));
            i = i + 1;
        }
        assert(given.take(given.len() as int) =~= given);
        let ghost before = *tape;
        let ghost places = args@;
        assert forall|k: int| 0 <= k < args@.len() implies #[trigger] args@[k] < tape.len() by {
            if k > 0 {
                assert(args@[(k - 1) + 1] < tape.len());
            }
        }
        let place: usize = tape.record(Op::CreateMask, args);
        proof {
            let value = tape.value(place as int);
            let wanted = Self::mask_in_use(mask_given, kv_cache@);
            assert forall|k: int| 0 <= k < wanted.args.len() implies value.args[k]
                == #[trigger] wanted.args[k] by {
                if k > 0 {
                    assert(before.value(places[(k - 1) + 1] as int) == apply0(given[k - 1]));
                }
            }
            assert(value.args =~= wanted.args);
        }
        assert(tape.ops() =~= start.ops() + Self::mask_ops(mask_given, kv_cache@));
        place
    }

    /// Records the layers over the hidden states at place `x`; returns the place
    /// of the outcome.
    fn record_layers(
        &self,
        tape: &mut Tape,
        x: usize,
        mask: usize,
        kv_cache: &mut Vec<Option<SteppingKeyValueCache>>,
        length: i32,
    ) -> (res: Result<usize, ModelError>)
        requires
            self.fits(),
            old(kv_cache)@.len() == self.model.layers@.len(),
            self.has_room(old(kv_cache)@, length as int),
            old(tape).wf(),
            x < old(tape).len(),
            mask < old(tape).len(),
        ensures
            final(tape).extends(*old(tape)),
            final(tape).ops() == old(tape).ops() + stack_ops(
                self.model.layers@,
                old(kv_cache)@,
                self.model.layers@.len(),
            ),
            final(kv_cache)@ == stack_caches(
                self.model.layers@,
                old(kv_cache)@,
                length as int,
                self.model.layers@.len(),
            ),
            match stack_missing(self.model.layers@, self.model.layers@.len()) {
                Some(module) => {
                    &&& res == Err::<usize, ModelError>(ModelError::Missing(module))
                    &&& final(tape).value(final(tape).len() - 1) == stack_stopped_at(
                        self.model.layers@,
                        old(kv_cache)@,
                        old(tape).value(x as int),
                        old(tape).value(mask as int),
                        self.model.layers@.len(),
                    )
                },
                None => {
                    &&& res matches Ok(place)
                    &&& place < final(tape).len()
                    &&& final(tape).value(place as int) == stack_output(
                        self.model.layers@,
                        old(kv_cache)@,
                        old(tape).value(x as int),
                        old(tape).value(mask as int),
                        self.model.layers@.len(),
                    )
                },
            },
    {
        let ghost layers = self.model.layers@;
        let ghost start = *old(tape);
        let ghost given = old(kv_cache)@;
        let count: usize = self.model.layers.len();
        let mut h: usize = x;
        let mut i: usize = 0;
        assert(start.ops() + stack_ops(layers, given, 0) =~= start.ops());
        while i < count
            invariant
                i <= count,
                count == layers.len(),
                layers == self.model.layers@,
                self.fits(),
                given == old(kv_cache)@,
                given.len() == count,
                self.has_room(given, length as int),
                kv_cache@ == stack_caches(layers, given, length as int, i as nat),
                start == *old(tape),
                mask < start.len(),
                tape.extends(start),
                h < tape.len(),
                tape.value(h as int) == stack_output(
                    layers,
                    given,
                    start.value(x as int),
                    start.value(mask as int),
                    i as nat,
                ),
                stack_missing(layers, i as nat) is None,
                tape.ops() == start.ops() + stack_ops(layers, given, i as nat),
            decreases count - i,
        {
            let ghost before = stack_ops(layers, given, i as nat);
            let ghost ops = layers[i as int].ops(i, given[i as int]);
            proof {
                lemma_stack_caches(layers, given, length as int, i as nat);
            }
            let mut cache: Option<SteppingKeyValueCache> = kv_cache[i];
            let res = self.model.layers[i].forward(tape, i, h, mask, &mut cache, length);
            kv_cache.set(i, cache);
            assert(start.ops() + before + ops =~= start.ops() + (before + ops));
            match res {
                Ok(place) => {
                    h = place;
                },
                Err(e) => {
                    proof {
                        lemma_stack_stops(
                            layers,
                            given,
                            start.value(x as int),
                            start.value(mask as int),
                            length as int,
                            (i + 1) as nat,
                            count as nat,
                        );
                    }
                    return Err(e);
                },
            }
            i = i + 1;
        }
        Ok(h)
    }

    /// Records the way from token ids to hidden states, on a new tape; returns
    /// the place of the hidden states. The token ids are those of `length`
    /// positions, which each cache takes up.
    pub fn forward_hidden(
        &self,
        tape: &mut Tape,
        length: i32,
        mask_given: bool,
        kv_cache: &mut Vec<Option<SteppingKeyValueCache>>,
    ) -> (res: Result<usize, ModelError>)
        requires
            self.caches_match(old(kv_cache)@) ==> self.fits() && self.has_room(
                old(kv_cache)@,
                length as int,
            ),
            old(tape).len() == 0,
        ensures
            final(tape).wf(),
            Self::enters(*final(tape), mask_given, old(kv_cache)@),
            final(tape).ops() == self.hidden_ops(mask_given, old(kv_cache)@),
            final(kv_cache)@ == self.caches_left(old(kv_cache)@, length as int),
            match self.failure(old(kv_cache)@) {
                Some(e) => {
                    &&& res == Err::<usize, ModelError>(e)
                    &&& e is Missing ==> final(tape).value(final(tape).len() - 1)
                        == self.stopped_at(mask_given, old(kv_cache)@)
                },
                None => {
                    &&& res matches Ok(place)
                    &&& place < final(tape).len()
                    &&& final(tape).value(place as int) == self.hidden(mask_given, old(kv_cache)@)
                },
            },
    {
        let ghost given = old(kv_cache)@;
        let inputs: usize = tape.record0(Op::Inputs);
        let embedded: usize = tape.record1(Op::Embed, inputs);
        let mask: usize = Self::record_mask(tape, mask_given, embedded, kv_cache);
        let count: usize = self.model.layers.len();
        if kv_cache.len() == 0 {
            tape.record0(Op::FillCaches { layers: count });
        }
        let ghost entry = self.entry_ops(mask_given, given);
        assert(tape.ops() =~= entry);
        match prepare_caches(kv_cache, count) {
            Ok(()) => {},
            Err(e) => {
                return Err(e);
            },
        }
        let ghost stack = stack_ops(self.model.layers@, kv_cache@, count as nat);
        let h: usize = match self.record_layers(tape, embedded, mask, kv_cache, length) {
            Ok(place) => place,
            Err(e) => {
                return Err(e);
            },
        };
        let hidden: usize = tape.record1(Op::RmsNorm(Site::FinalNorm), h);
        assert((entry + stack).push(Op::RmsNorm(Site::FinalNorm)) =~= entry + stack.push(
            Op::RmsNorm(Site::FinalNorm),
        ));
        Ok(hidden)
    }

    /// Records the output projection of the hidden states at place `h`.
    fn record_logits(&self, tape: &mut Tape, h: usize) -> (place: usize)
        requires
            old(tape).wf(),
            h < old(tape).len(),
        ensures
            final(tape).extends(*old(tape)),
            final(tape).ops() == old(tape).ops().push(self.head_op()),
            place < final(tape).len(),
            final(tape).value(place as int) == self.logits(old(tape).value(h as int)),
    {
        match self.lm_head {
            Some(_) => tape.record1(Op::QLinear(Site::LmHead), h),
            None => tape.record1(Op::EmbedAsLinear, h),
        }
    }

    /// Records a forward pass that scores the token behind the last position, on
    /// a new tape; returns the place of the scores. The token ids are those of
    /// `length` positions, which each cache takes up.
    pub fn forward(
        &self,
        tape: &mut Tape,
        length: i32,
        mask_given: bool,
        kv_cache: &mut Vec<Option<SteppingKeyValueCache>>,
    ) -> (res: Result<usize, ModelError>)
        requires
            self.caches_match(old(kv_cache)@) ==> self.fits() && self.has_room(
                old(kv_cache)@,
                length as int,
            ),
            old(tape).len() == 0,
        ensures
            final(tape).wf(),
            Self::enters(*final(tape), mask_given, old(kv_cache)@),
            final(kv_cache)@ == self.caches_left(old(kv_cache)@, length as int),
            match self.failure(old(kv_cache)@) {
                Some(e) => {
                    &&& res == Err::<usize, ModelError>(e)
                    &&& e is Missing ==> final(tape).value(final(tape).len() - 1)
                        == self.stopped_at(mask_given, old(kv_cache)@)
                    &&& final(tape).ops() == self.hidden_ops(
                        mask_given,
                        old(kv_cache)@,
                    )
                },
                None => {
                    &&& res matches Ok(place)
                    &&& place < final(tape).len()
                    &&& final(tape).value(place as int) == self.logits(
                        apply1(
                            Self::last_position_op(),
                            self.hidden(mask_given, old(kv_cache)@),
                        ),
                    )
                    &&& final(tape).ops() == self.hidden_ops(
                        mask_given,
                        old(kv_cache)@,
                    ) + seq![Self::last_position_op(), self.head_op()]
                },
            },
    {
        let h: usize = match self.forward_hidden(tape, length, mask_given, kv_cache) {
            Ok(place) => place,
            Err(e) => {
                return Err(e);
            },
        };
        let ghost hidden = tape.ops();
        let h_last: usize = tape.record1(
            Op::Slice { rank: 3, axis: 1, span: Span::From(-1) },
            h,
        );
        let scores: usize = self.record_logits(tape, h_last);
        assert(tape.ops() =~= hidden + seq![Self::last_position_op(), self.head_op()]);
        Ok(scores)
    }

    /// Records a forward pass that scores the token behind every position, on a
    /// new tape; returns the place of the scores. The token ids are those of
    /// `length` positions, which each cache takes up.
    pub fn forward_all_logits(
        &self,
        tape: &mut Tape,
        length: i32,
        mask_given: bool,
        kv_cache: &mut Vec<Option<SteppingKeyValueCache>>,
    ) -> (res: Result<usize, ModelError>)
        requires
            self.caches_match(old(kv_cache)@) ==> self.fits() && self.has_room(
                old(kv_cache)@,
                length as int,
            ),
            old(tape).len() == 0,
        ensures
            final(tape).wf(),
            Self::enters(*final(tape), mask_given, old(kv_cache)@),
            final(kv_cache)@ == self.caches_left(old(kv_cache)@, length as int),
            match self.failure(old(kv_cache)@) {
                Some(e) => {
                    &&& res == Err::<usize, ModelError>(e)
                    &&& e is Missing ==> final(tape).value(final(tape).len() - 1)
                        == self.stopped_at(mask_given, old(kv_cache)@)
                    &&& final(tape).ops() == self.hidden_ops(
                        mask_given,
                        old(kv_cache)@,
                    )
                },
                None => {
                    &&& res matches Ok(place)
                    &&& place < final(tape).len()
                    &&& final(tape).value(place as int) == self.logits(
                        self.hidden(mask_given, old(kv_cache)@),
                    )
                    &&& final(tape).ops() == self.hidden_ops(
                        mask_given,
                        old(kv_cache)@,
                    ) + seq![self.head_op()]
                },
            },
    {
        let h: usize = match self.forward_hidden(tape, length, mask_given, kv_cache) {
            Ok(place) => place,
            Err(e) => {
                return Err(e);
            },
        };
        let ghost hidden = tape.ops();
        let scores: usize = self.record_logits(tape, h);
        assert(tape.ops() =~= hidden + seq![self.head_op()]);
        Ok(scores)
    }
}

} // verus!
