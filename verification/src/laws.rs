//! What holds of every model that the library lays out, and of every pass that
//! it records.
use vstd::arithmetic::div_mod::lemma_fundamental_div_mod_converse;
use vstd::prelude::*;

use crate::attention::Glm4MoeLiteAttention;
use crate::binary32::{Binary32, ONE_BITS};
use crate::cache::{has_room, moved, start_of, SteppingKeyValueCache};
use crate::config::{given_or, Glm4MoeLiteModelArgs};
use crate::decoder::Glm4MoeLiteDecoderLayer;
use crate::mlp::{Glm4MoeLiteMlpBlock, SharedExperts};
use crate::model::{
    caches_in_use, layer_layouts, lemma_stack_caches, stack_caches, stack_missing, stack_ops,
    Glm4MoeLiteCausalLM,
};
use crate::shapes::{
    attention_matches, layer_matches, mlp_matches, model_matches, value_width, Sizes,
};
use crate::tape::{LayerPart, Op, Site, Span, Tensor};

verus! {

/// Behind a routed layer all layers are routed.
pub proof fn law_routing_is_monotone(args: Glm4MoeLiteModelArgs, i: int, j: int)
    requires
        i <= j,
        args.routes(i),
    ensures
        args.routes(j),
{
}

/// A model has as many layers as its settings say. Where there are routed
/// experts, the first `first_k_dense_replace` layers are dense and the others
/// are routed; where there are none, all are dense.
pub proof fn law_dense_layers_come_first(m: Glm4MoeLiteCausalLM, args: Glm4MoeLiteModelArgs, i: int)
    requires
        m.is_layout(args),
        0 <= i < args.num_hidden_layers,
    ensures
        m.model.layers@.len() == args.num_hidden_layers,
        m.model.layers@[i].mlp.is_moe <==> given_or(args.n_routed_experts, 0) > 0 && i
            >= args.first_k_dense_replace,
{
}

/// All layers of a model have the same attention.
pub proof fn law_layers_share_attention(
    m: Glm4MoeLiteCausalLM,
    args: Glm4MoeLiteModelArgs,
    i: int,
    j: int,
)
    requires
        m.is_layout(args),
        0 <= i < m.model.layers@.len(),
        0 <= j < m.model.layers@.len(),
    ensures
        m.model.layers@[i].self_attn == m.model.layers@[j].self_attn,
{
}

/// Layers that were laid out lack no module.
pub proof fn lemma_no_module_missing(args: Glm4MoeLiteModelArgs, ql: i32, qb: i32, n: nat)
    requires
        n <= layer_layouts(args, ql, qb).len(),
    ensures
        stack_missing(layer_layouts(args, ql, qb), n) is None,
    decreases n,
{
    if n > 0 {
        lemma_no_module_missing(args, ql, qb, (n - 1) as nat);
        let layer = layer_layouts(args, ql, qb)[n - 1];
        assert(layer == Glm4MoeLiteDecoderLayer::layout(args, n - 1, ql, qb));
        assert(layer.missing() is None);
    }
}

/// A model that was laid out has all the modules that a forward pass calls for,
/// so a pass fails if and only if there are caches but not one entry for each
/// layer.
pub proof fn law_laid_out_models_are_complete(
    m: Glm4MoeLiteCausalLM,
    args: Glm4MoeLiteModelArgs,
    given: Seq<Option<SteppingKeyValueCache>>,
)
    requires
        m.is_layout(args),
    ensures
        m.failure(given) is Some <==> given.len() != 0 && given.len() != m.model.layers@.len(),
        m.failure(given) matches Some(e) ==> e is CacheLengthMismatch,
{
    lemma_no_module_missing(
        args,
        args.group_size(),
        args.weight_bits(),
        m.model.layers@.len(),
    );
}

/// The sizes that a forward pass of a model computes fit their types if and only
/// if no layer is routed, or the number of experts that a token is not routed
/// to fits.
pub proof fn law_laid_out_models_fit(m: Glm4MoeLiteCausalLM, args: Glm4MoeLiteModelArgs)
    requires
        m.is_layout(args),
        Glm4MoeLiteCausalLM::rejection(args) is None,
    ensures
        m.fits() <==> args.routing_fits(),
{
    let ql = args.group_size();
    let qb = args.weight_bits();
    let layers = m.model.layers@;
    let n = args.num_hidden_layers as int;
    let spare_fits = given_or(args.n_routed_experts, 0) - given_or(args.num_experts_per_tok, 2)
        <= i32::MAX;
    assert forall|i: int| 0 <= i < n implies (#[trigger] layers[i]).fits() == (args.routes(i)
        ==> spare_fits) by {
        assert(layers[i] == Glm4MoeLiteDecoderLayer::layout(args, i, ql, qb));
    }
    assert forall|i: nat| i < n implies (#[trigger] stack_missing(layers, i)) is None by {
        lemma_no_module_missing(args, ql, qb, i);
    }
    assert(stack_missing(layers, (n - 1) as nat) is None);
    if m.fits() {
        assert(m.model.layers@[n - 1].fits());
    } else {
        let i = choose|i: int|
            0 <= i < layers.len() && stack_missing(layers, i as nat) is None && !(
            #[trigger] layers[i]).fits();
        law_routing_is_monotone(args, i, n - 1);
    }
}

/// Where none of the first `n` layers lacks a module, each of them that has a
/// cache leaves it `length` positions further on.
pub proof fn lemma_complete_stack_caches(
    layers: Seq<Glm4MoeLiteDecoderLayer>,
    caches: Seq<Option<SteppingKeyValueCache>>,
    length: int,
    n: nat,
)
    requires
        n <= caches.len(),
        stack_missing(layers, n) is None,
    ensures
        stack_caches(layers, caches, length, n).len() == caches.len(),
        forall|i: int|
            0 <= i < caches.len() ==> #[trigger] stack_caches(layers, caches, length, n)[i] == if i
                < n {
                moved(caches[i], length)
            } else {
                caches[i]
            },
    decreases n,
{
    if n > 0 {
        lemma_complete_stack_caches(layers, caches, length, (n - 1) as nat);
        assert(layers[n - 1].missing() is None);
        assert(layers[n - 1].self_attn.missing() is None);
    }
}

/// A pass over `length` positions that does not fail leaves one entry for each
/// layer. Each cache that was given stands `length` positions further on, and a
/// layer that was given none has none. If no caches were given at all, each
/// layer has one that stands at `length`.
pub proof fn law_caches_move_on(
    m: Glm4MoeLiteCausalLM,
    given: Seq<Option<SteppingKeyValueCache>>,
    length: i32,
)
    requires
        m.failure(given) is None,
        m.has_room(given, length as int),
    ensures
        ({
            let n = m.model.layers@.len();
            let left = m.caches_left(given, length as int);
            &&& left.len() == n
            &&& given.len() == 0 ==> forall|i: int|
                0 <= i < n ==> #[trigger] left[i] == Some(SteppingKeyValueCache { offset: length })
            &&& given.len() != 0 ==> forall|i: int|
                0 <= i < n ==> match given[i] {
                    Some(before) => (#[trigger] left[i]) matches Some(after) && after.offset
                        == before.offset + length,
                    None => left[i] is None,
                }
        }),
{
    let layers = m.model.layers@;
    let n = layers.len();
    let caches = caches_in_use(given, n);
    let left = m.caches_left(given, length as int);
    lemma_complete_stack_caches(layers, caches, length as int, n);
    assert forall|i: int| 0 <= i < n implies has_room(#[trigger] caches[i], length as int) && left[i]
        == moved(caches[i], length as int) by {
        lemma_complete_up_to(layers, i as nat, n);
        assert(layers[i].missing() is None);
        assert(layers[i].has_room(caches[i], length as int));
    }
}

/// Where the first `n` layers lack no module, each of them lacks none.
pub proof fn lemma_complete_up_to(layers: Seq<Glm4MoeLiteDecoderLayer>, i: nat, n: nat)
    requires
        i < n,
        stack_missing(layers, n) is None,
    ensures
        stack_missing(layers, i) is None,
        layers[i as int].missing() is None,
    decreases n,
{
    if i + 1 < n {
        lemma_complete_up_to(layers, i, (n - 1) as nat);
    }
}

/// A pass that finds the wrong number of caches leaves them as they are.
pub proof fn law_mismatched_caches_stay(
    m: Glm4MoeLiteCausalLM,
    given: Seq<Option<SteppingKeyValueCache>>,
    length: i32,
)
    requires
        !m.caches_match(given),
    ensures
        m.failure(given) is Some,
        m.caches_left(given, length as int) == given,
{
}

/// A pass leaves caches that the next pass accepts and works with.
pub proof fn law_caches_carry_over(
    m: Glm4MoeLiteCausalLM,
    given: Seq<Option<SteppingKeyValueCache>>,
    length: i32,
)
    requires
        m.caches_match(given),
    ensures
        ({
            let n = m.model.layers@.len();
            let left = m.caches_left(given, length as int);
            &&& left.len() == n
            &&& m.caches_match(left)
            &&& caches_in_use(left, n) == left
        }),
{
    let layers = m.model.layers@;
    let n = layers.len();
    lemma_stack_caches(layers, caches_in_use(given, n), length as int, n);
    let left = m.caches_left(given, length as int);
    assert(caches_in_use(left, n) =~= left);
}

/// Two passes that do not fail leave the caches where one pass over as many
/// positions leaves them.
pub proof fn law_passes_add_up(
    m: Glm4MoeLiteCausalLM,
    given: Seq<Option<SteppingKeyValueCache>>,
    first: i32,
    second: i32,
)
    requires
        m.failure(given) is None,
        m.has_room(given, first as int),
        m.has_room(given, first + second),
    ensures
        m.failure(m.caches_left(given, first as int)) is None,
        m.has_room(m.caches_left(given, first as int), second as int),
        m.caches_left(m.caches_left(given, first as int), second as int) == m.caches_left(
            given,
            first + second,
        ),
{
    let layers = m.model.layers@;
    let n = layers.len();
    let caches = caches_in_use(given, n);
    let between = m.caches_left(given, first as int);
    law_caches_carry_over(m, given, first);
    lemma_complete_stack_caches(layers, caches, first as int, n);
    lemma_complete_stack_caches(layers, caches, first + second, n);
    lemma_complete_stack_caches(layers, between, second as int, n);
    assert forall|i: int| 0 <= i < n implies has_room(#[trigger] caches[i], first as int)
        && has_room(caches[i], first + second) && between[i] == moved(caches[i], first as int) by {
        lemma_complete_up_to(layers, i as nat, n);
        assert(layers[i].has_room(caches[i], first as int));
        assert(layers[i].has_room(caches[i], first + second));
    }
    assert forall|i: int| 0 <= i < n implies (#[trigger] layers[i]).has_room(
        caches_in_use(between, n)[i],
        second as int,
    ) by {
        assert(has_room(caches[i], first + second));
    }
    assert forall|i: int| 0 <= i < n implies #[trigger] m.caches_left(between, second as int)[i]
        == m.caches_left(given, first + second)[i] by {
        assert(has_room(caches[i], first + second));
    }
    assert(m.caches_left(between, second as int) =~= m.caches_left(given, first + second));
}

/// The caches have room in a model that was laid out if and only if each of
/// them has.
pub proof fn law_laid_out_models_have_room(
    m: Glm4MoeLiteCausalLM,
    args: Glm4MoeLiteModelArgs,
    given: Seq<Option<SteppingKeyValueCache>>,
    length: i32,
)
    requires
        m.is_layout(args),
        m.caches_match(given),
    ensures
        m.has_room(given, length as int) <==> forall|i: int|
            0 <= i < given.len() ==> has_room(#[trigger] given[i], length as int),
{
    let layers = m.model.layers@;
    let n = layers.len();
    let caches = caches_in_use(given, n);
    assert forall|i: int| 0 <= i < n implies stack_missing(layers, i as nat) is None && (
    #[trigger] layers[i]).has_room(caches[i], length as int) == has_room(
        caches[i],
        length as int,
    ) by {
        lemma_no_module_missing(args, args.group_size(), args.weight_bits(), i as nat);
        assert(layers[i] == Glm4MoeLiteDecoderLayer::layout(
            args,
            i,
            args.group_size(),
            args.weight_bits(),
        ));
    }
    if m.has_room(given, length as int) {
        assert forall|i: int| 0 <= i < given.len() implies has_room(
            #[trigger] given[i],
            length as int,
        ) by {
            assert(layers[i].has_room(caches[i], length as int));
        }
    }
}

/// Under a given mask, to give no caches, or to give a new one for each layer,
/// comes to the same hidden states and leaves the same caches.
pub proof fn law_no_caches_are_new_caches(m: Glm4MoeLiteCausalLM, length: i32)
    ensures
        ({
            let none = Seq::<Option<SteppingKeyValueCache>>::empty();
            let new = caches_in_use(none, m.model.layers@.len());
            &&& m.hidden(true, new) == m.hidden(true, none)
            &&& m.caches_left(new, length as int) == m.caches_left(none, length as int)
        }),
{
    let n = m.model.layers@.len();
    let new = caches_in_use(Seq::<Option<SteppingKeyValueCache>>::empty(), n);
    assert(caches_in_use(new, n) =~= new);
}

/// The caches behind operations that hand each cache that they update the keys
/// and values of `length` positions.
pub open spec fn caches_after(
    ops: Seq<Op>,
    caches: Seq<Option<SteppingKeyValueCache>>,
    length: int,
) -> Seq<Option<SteppingKeyValueCache>>
    decreases ops.len(),
{
    if ops.len() == 0 {
        caches
    } else {
        let before = caches_after(ops.drop_last(), caches, length);
        match ops.last() {
            Op::CacheUpdate { layer, .. } => before.update(
                layer as int,
                moved(before[layer as int], length),
            ),
            _ => before,
        }
    }
}

/// The layers whose caches are updated, in order.
pub open spec fn updated_layers(ops: Seq<Op>) -> Seq<usize>
    decreases ops.len(),
{
    if ops.len() == 0 {
        seq![]
    } else {
        let before = updated_layers(ops.drop_last());
        match ops.last() {
            Op::CacheUpdate { layer, .. } => before.push(layer),
            _ => before,
        }
    }
}

/// Those of the first `n` layers that have a cache, in order.
pub open spec fn cached_layers(
    caches: Seq<Option<SteppingKeyValueCache>>,
    n: nat,
) -> Seq<usize>
    decreases n,
{
    if n == 0 {
        seq![]
    } else {
        let before = cached_layers(caches, (n - 1) as nat);
        if caches[n - 1] is Some {
            before.push((n - 1) as usize)
        } else {
            before
        }
    }
}

/// No cache is updated.
spec fn no_updates(ops: Seq<Op>) -> bool {
    forall|i: int| 0 <= i < ops.len() ==> !((#[trigger] ops[i]) is CacheUpdate)
}

proof fn lemma_no_updates(ops: Seq<Op>)
    requires
        no_updates(ops),
    ensures
        updated_layers(ops) == Seq::<usize>::empty(),
    decreases ops.len(),
{
    if ops.len() > 0 {
        assert(no_updates(ops.drop_last()));
        lemma_no_updates(ops.drop_last());
    }
}

proof fn lemma_updates_add(a: Seq<Op>, b: Seq<Op>)
    ensures
        updated_layers(a + b) == updated_layers(a) + updated_layers(b),
    decreases b.len(),
{
    if b.len() == 0 {
        assert(a + b =~= a);
    } else {
        lemma_updates_add(a, b.drop_last());
        assert((a + b).drop_last() =~= a + b.drop_last());
        assert((a + b).last() == b.last());
    }
}

proof fn lemma_attention_updates(
    a: Glm4MoeLiteAttention,
    layer: usize,
    cache: Option<SteppingKeyValueCache>,
)
    requires
        a.missing() is None,
    ensures
        updated_layers(a.ops(layer, cache)) == if cache is Some {
            seq![layer]
        } else {
            seq![]
        },
{
    reveal(Glm4MoeLiteAttention::ops);
    let before = seq![Op::LeadingDims] + a.query_ops(layer) + a.head_ops(layer) + a.position_ops(
        cache,
    );
    let cache_ops = Glm4MoeLiteAttention::cache_ops(layer, cache);
    let behind = a.output_ops(layer);
    assert(no_updates(seq![Op::LeadingDims]));
    assert(no_updates(a.query_ops(layer)));
    assert(no_updates(a.head_ops(layer)));
    assert(no_updates(a.position_ops(cache)));
    assert(no_updates(before));
    assert(no_updates(behind));
    lemma_no_updates(before);
    lemma_no_updates(behind);
    lemma_updates_add(before, cache_ops);
    lemma_updates_add(before + cache_ops, behind);
    if cache is Some {
        let update = seq![Op::CacheUpdate { layer, offset: start_of(cache) }];
        let fetch = seq![Op::FetchedKeys, Op::FetchedValues];
        assert(cache_ops =~= update + fetch);
        lemma_updates_add(update, fetch);
        assert(no_updates(fetch));
        lemma_no_updates(fetch);
        assert(update.drop_last() =~= seq![]);
        assert(updated_layers(update) =~= seq![layer]) by {
            reveal_with_fuel(updated_layers, 2);
        }
        assert(updated_layers(a.ops(layer, cache)) =~= seq![layer]);
    } else {
        assert(updated_layers(a.ops(layer, cache)) =~= seq![]);
    }
}

proof fn lemma_mlp_updates(m: Glm4MoeLiteMlpBlock, layer: usize)
    ensures
        no_updates(m.ops(layer)),
{
    reveal(Glm4MoeLiteMlpBlock::ops);
    assert(no_updates(m.scoring_ops(layer)));
    assert(no_updates(SharedExperts::ops(layer)));
    assert(no_updates(m.dense_ops(layer)));
    assert(no_updates(m.moe_ops(layer)));
}

proof fn lemma_layer_updates(
    l: Glm4MoeLiteDecoderLayer,
    layer: usize,
    cache: Option<SteppingKeyValueCache>,
)
    requires
        l.missing() is None,
    ensures
        updated_layers(l.ops(layer, cache)) == if cache is Some {
            seq![layer]
        } else {
            seq![]
        },
{
    reveal(Glm4MoeLiteDecoderLayer::ops);
    let norm = seq![Op::RmsNorm(Site::Layer(layer, LayerPart::InputLayernorm))];
    let attention = l.self_attn.ops(layer, cache);
    let behind = (seq![
        Op::Add,
        Op::RmsNorm(Site::Layer(layer, LayerPart::PostAttentionLayernorm)),
    ] + l.mlp.ops(layer)).push(Op::Add);
    lemma_mlp_updates(l.mlp, layer);
    assert(no_updates(norm));
    assert(no_updates(behind));
    lemma_no_updates(norm);
    lemma_no_updates(behind);
    lemma_attention_updates(l.self_attn, layer, cache);
    lemma_updates_add(norm, attention);
    lemma_updates_add(norm + attention, behind);
    assert(updated_layers(l.ops(layer, cache)) =~= updated_layers(attention));
}

proof fn lemma_stack_updates(
    layers: Seq<Glm4MoeLiteDecoderLayer>,
    caches: Seq<Option<SteppingKeyValueCache>>,
    n: nat,
)
    requires
        stack_missing(layers, n) is None,
    ensures
        updated_layers(stack_ops(layers, caches, n)) == cached_layers(caches, n),
    decreases n,
{
    if n > 0 {
        let i = (n - 1) as nat;
        lemma_stack_updates(layers, caches, i);
        lemma_layer_updates(layers[i as int], i as usize, caches[i as int]);
        lemma_updates_add(
            stack_ops(layers, caches, i),
            layers[i as int].ops(i as usize, caches[i as int]),
        );
        assert(updated_layers(stack_ops(layers, caches, n)) =~= cached_layers(caches, n));
    }
}

/// A pass that does not fail updates the cache of each layer that has one
/// exactly once, in the order of the layers, and no other cache.
pub proof fn law_each_cache_is_updated_once(
    m: Glm4MoeLiteCausalLM,
    mask_given: bool,
    given: Seq<Option<SteppingKeyValueCache>>,
)
    requires
        m.failure(given) is None,
    ensures
        updated_layers(m.hidden_ops(mask_given, given)) == cached_layers(
            caches_in_use(given, m.model.layers@.len()),
            m.model.layers@.len(),
        ),
{
    let layers = m.model.layers@;
    let caches = caches_in_use(given, layers.len());
    let entry = m.entry_ops(mask_given, given);
    let stack = stack_ops(layers, caches, layers.len());
    let norm = seq![Op::RmsNorm(Site::FinalNorm)];
    lemma_stack_updates(layers, caches, layers.len());
    assert(no_updates(entry));
    assert(no_updates(norm));
    lemma_no_updates(entry);
    lemma_no_updates(norm);
    lemma_updates_add(entry, stack);
    lemma_updates_add(entry + stack, norm);
    assert(m.hidden_ops(mask_given, given) =~= entry + stack + norm);
    assert(updated_layers(m.hidden_ops(mask_given, given)) =~= updated_layers(stack));
}

proof fn lemma_all_cached(caches: Seq<Option<SteppingKeyValueCache>>, n: nat)
    requires
        n <= caches.len(),
        forall|i: int| 0 <= i < n ==> (#[trigger] caches[i]) is Some,
    ensures
        cached_layers(caches, n) == Seq::new(n, |i: int| i as usize),
    decreases n,
{
    if n > 0 {
        lemma_all_cached(caches, (n - 1) as nat);
    }
    assert(cached_layers(caches, n) =~= Seq::new(n, |i: int| i as usize));
}

/// A first pass, without caches, updates the cache of every layer, from the
/// first to the last.
pub proof fn law_first_pass_updates_all_caches(m: Glm4MoeLiteCausalLM, mask_given: bool)
    requires
        m.failure(seq![]) is None,
    ensures
        updated_layers(m.hidden_ops(mask_given, seq![])) == Seq::new(
            m.model.layers@.len(),
            |i: int| i as usize,
        ),
{
    let n = m.model.layers@.len();
    law_each_cache_is_updated_once(m, mask_given, seq![]);
    lemma_all_cached(caches_in_use(seq![], n), n);
}

proof fn lemma_after_no_updates(
    ops: Seq<Op>,
    caches: Seq<Option<SteppingKeyValueCache>>,
    length: int,
)
    requires
        no_updates(ops),
    ensures
        caches_after(ops, caches, length) == caches,
    decreases ops.len(),
{
    if ops.len() > 0 {
        assert(no_updates(ops.drop_last()));
        lemma_after_no_updates(ops.drop_last(), caches, length);
    }
}

proof fn lemma_after_adds(
    a: Seq<Op>,
    b: Seq<Op>,
    caches: Seq<Option<SteppingKeyValueCache>>,
    length: int,
)
    ensures
        caches_after(a + b, caches, length) == caches_after(
            b,
            caches_after(a, caches, length),
            length,
        ),
    decreases b.len(),
{
    if b.len() == 0 {
        assert(a + b =~= a);
    } else {
        lemma_after_adds(a, b.drop_last(), caches, length);
        assert((a + b).drop_last() =~= a + b.drop_last());
        assert((a + b).last() == b.last());
    }
}

proof fn lemma_after_attention(
    a: Glm4MoeLiteAttention,
    layer: usize,
    caches: Seq<Option<SteppingKeyValueCache>>,
    length: int,
)
    requires
        layer < caches.len(),
    ensures
        caches_after(a.ops(layer, caches[layer as int]), caches, length) == caches.update(
            layer as int,
            a.cache_left(caches[layer as int], length),
        ),
{
    reveal(Glm4MoeLiteAttention::ops);
    let cache = caches[layer as int];
    let ops = a.ops(layer, cache);
    let left = caches.update(layer as int, a.cache_left(cache, length));
    if a.missing() is Some || cache is None {
        assert(no_updates(seq![Op::LeadingDims]));
        assert(no_updates(a.query_ops(layer)));
        assert(no_updates(a.head_ops(layer)));
        assert(no_updates(a.position_ops(cache)));
        assert(no_updates(a.output_ops(layer)));
        assert(no_updates(ops));
        lemma_after_no_updates(ops, caches, length);
        assert(left =~= caches);
    } else {
        let before = seq![Op::LeadingDims] + a.query_ops(layer) + a.head_ops(layer)
            + a.position_ops(cache);
        let update = seq![Op::CacheUpdate { layer, offset: start_of(cache) }];
        let behind = seq![Op::FetchedKeys, Op::FetchedValues] + a.output_ops(layer);
        assert(no_updates(seq![Op::LeadingDims]));
        assert(no_updates(a.query_ops(layer)));
        assert(no_updates(a.head_ops(layer)));
        assert(no_updates(a.position_ops(cache)));
        assert(no_updates(before));
        assert(no_updates(a.output_ops(layer)));
        assert(no_updates(behind));
        assert(ops =~= before + update + behind);
        lemma_after_no_updates(before, caches, length);
        lemma_after_adds(before, update, caches, length);
        assert(update.drop_last() =~= seq![]);
        assert(caches_after(update, caches, length) == left) by {
            reveal_with_fuel(caches_after, 2);
        }
        lemma_after_no_updates(behind, left, length);
        lemma_after_adds(before + update, behind, caches, length);
    }
}

proof fn lemma_after_layer(
    l: Glm4MoeLiteDecoderLayer,
    layer: usize,
    caches: Seq<Option<SteppingKeyValueCache>>,
    length: int,
)
    requires
        layer < caches.len(),
    ensures
        caches_after(l.ops(layer, caches[layer as int]), caches, length) == caches.update(
            layer as int,
            l.self_attn.cache_left(caches[layer as int], length),
        ),
{
    reveal(Glm4MoeLiteDecoderLayer::ops);
    let cache = caches[layer as int];
    let norm = seq![Op::RmsNorm(Site::Layer(layer, LayerPart::InputLayernorm))];
    let attention = l.self_attn.ops(layer, cache);
    let mlp = seq![
        Op::Add,
        Op::RmsNorm(Site::Layer(layer, LayerPart::PostAttentionLayernorm)),
    ] + l.mlp.ops(layer);
    let left = caches.update(layer as int, l.self_attn.cache_left(cache, length));
    assert(no_updates(norm));
    lemma_after_no_updates(norm, caches, length);
    lemma_after_attention(l.self_attn, layer, caches, length);
    lemma_after_adds(norm, attention, caches, length);
    lemma_mlp_updates(l.mlp, layer);
    assert(no_updates(mlp));
    assert(no_updates(mlp.push(Op::Add)));
    lemma_after_no_updates(mlp, left, length);
    lemma_after_no_updates(mlp.push(Op::Add), left, length);
    lemma_after_adds(norm + attention, mlp, caches, length);
    lemma_after_adds(norm + attention, mlp.push(Op::Add), caches, length);
}

proof fn lemma_after_stack(
    layers: Seq<Glm4MoeLiteDecoderLayer>,
    caches: Seq<Option<SteppingKeyValueCache>>,
    length: int,
    n: nat,
)
    requires
        n <= caches.len() <= usize::MAX,
    ensures
        caches_after(stack_ops(layers, caches, n), caches, length) == stack_caches(
            layers,
            caches,
            length,
            n,
        ),
    decreases n,
{
    if n > 0 {
        let i = (n - 1) as nat;
        lemma_after_stack(layers, caches, length, i);
        lemma_stack_caches(layers, caches, length, i);
        if stack_missing(layers, i) is None {
            let before = stack_caches(layers, caches, length, i);
            lemma_after_layer(layers[i as int], i as usize, before, length);
            lemma_after_adds(
                stack_ops(layers, caches, i),
                layers[i as int].ops(i as usize, caches[i as int]),
                caches,
                length,
            );
        }
    }
}

/// A pass leaves the caches where its operations leave them, from the caches that
/// it works with on, whether it fails or not.
pub proof fn law_operations_move_the_caches(
    m: Glm4MoeLiteCausalLM,
    mask_given: bool,
    given: Seq<Option<SteppingKeyValueCache>>,
    length: int,
)
    ensures
        m.caches_left(given, length) == caches_after(
            m.hidden_ops(mask_given, given),
            caches_in_use(given, m.model.layers@.len()),
            length,
        ),
{
    let layers = m.model.layers@;
    let caches = caches_in_use(given, layers.len());
    let entry = m.entry_ops(mask_given, given);
    let stack = stack_ops(layers, caches, layers.len());
    let norm = seq![Op::RmsNorm(Site::FinalNorm)];
    assert(no_updates(entry));
    lemma_after_no_updates(entry, caches, length);
    if m.caches_match(given) {
        assert(layers.len() == m.model.layers.len());
        lemma_after_stack(layers, caches, length, layers.len());
        lemma_after_adds(entry, stack, caches, length);
        assert(no_updates(norm));
        lemma_after_no_updates(norm, m.caches_left(given, length), length);
        lemma_after_adds(entry + stack, norm, caches, length);
        assert(entry + stack.push(Op::RmsNorm(Site::FinalNorm)) =~= entry + stack + norm);
    }
}

/// The chosen experts are those from the pivot of the partition on: counted
/// from the end, the pivot is the expert at which the chosen ones start.
pub proof fn law_chosen_experts_start_at_the_pivot(
    m: Glm4MoeLiteMlpBlock,
    layer: usize,
    x: Tensor,
)
    requires
        m.gate is Some,
        m.routing_fits(),
    ensures
        m.experts(layer, x).op matches Op::Slice { rank, axis, span: Span::From(start) }
            && m.experts(layer, x).args[0].op matches Op::ArgPartition { kth } && start
            == m.num_experts + kth,
{
}

/// A scaling factor that the settings leave out is 1, and 1 is not applied.
pub proof fn law_default_factor_is_not_applied(
    args: Glm4MoeLiteModelArgs,
    n_routed: i32,
    ql: i32,
    qb: i32,
)
    requires
        args.routed_scaling_factor is None,
    ensures
        !Glm4MoeLiteMlpBlock::moe_layout(
            args,
            n_routed,
            ql,
            qb,
        ).scaling_factor.departs_from_one(),
{
    crate::binary32::law_neighbours_of_one(Binary32 { bits: ONE_BITS });
}

/// The sizes of weights that are as the settings say, for a batch of sequences.
pub open spec fn settings_sizes(
    args: Glm4MoeLiteModelArgs,
    batch: int,
    length: int,
) -> Sizes {
    let rank = given_or(args.q_lora_rank, 0) as int;
    let queries = args.num_attention_heads * args.head_width();
    let values = args.num_attention_heads * args.v_head_dim;
    let shared = given_or(args.n_shared_experts, 0) * given_or(args.moe_intermediate_size, 0);
    Sizes {
        batch,
        length,
        hidden: args.hidden_size as int,
        vocab: args.vocab_size as int,
        fan_in: |site: Site|
            match site {
                Site::Layer(_, part) => match part {
                    LayerPart::QALayernorm | LayerPart::QBProj => rank,
                    LayerPart::KvALayernorm | LayerPart::KvBProj => args.kv_lora_rank as int,
                    LayerPart::OProj => values,
                    LayerPart::SharedDownProj => shared,
                    LayerPart::DenseDownProj => args.intermediate_size as int,
                    _ => args.hidden_size as int,
                },
                _ => args.hidden_size as int,
            },
        fan_out: |site: Site|
            match site {
                Site::Layer(_, part) => match part {
                    LayerPart::QAProj => rank,
                    LayerPart::QBProj | LayerPart::QProj => queries,
                    LayerPart::KvAProjWithMqa => args.kv_lora_rank + args.qk_rope_head_dim,
                    LayerPart::KvBProj => args.num_attention_heads * (args.qk_nope_head_dim
                        + args.v_head_dim),
                    LayerPart::RouterGate => given_or(args.n_routed_experts, 0) as int,
                    LayerPart::SharedGateProj | LayerPart::SharedUpProj => shared,
                    LayerPart::DenseGateProj | LayerPart::DenseUpProj =>
                        args.intermediate_size as int,
                    _ => args.hidden_size as int,
                },
                Site::LmHead => args.vocab_size as int,
                Site::FinalNorm => args.hidden_size as int,
            },
    }
}

/// The settings hold no negative size, the values have features, and a token is
/// routed to no more experts than there are.
pub open spec fn sensible(args: Glm4MoeLiteModelArgs) -> bool {
    &&& args.qk_nope_head_dim >= 0
    &&& args.qk_rope_head_dim >= 0
    &&& args.kv_lora_rank >= 0
    &&& args.v_head_dim > 0
    &&& args.n_routed_experts matches Some(n) ==> 0 <= given_or(args.num_experts_per_tok, 2) <= n
}

/// Weights that are as the settings say fit the model that was laid out for
/// these settings.
pub proof fn law_weights_of_the_settings_fit(
    m: Glm4MoeLiteCausalLM,
    args: Glm4MoeLiteModelArgs,
    batch: int,
    length: int,
)
    requires
        m.is_layout(args),
        Glm4MoeLiteCausalLM::rejection(args) is None,
        sensible(args),
    ensures
        model_matches(m, settings_sizes(args, batch, length)),
{
    let s = settings_sizes(args, batch, length);
    let ql = args.group_size();
    let qb = args.weight_bits();
    assert forall|i: int| 0 <= i < m.model.layers@.len() implies layer_matches(
        #[trigger] m.model.layers@[i],
        i as usize,
        s,
    ) by {
        let l = m.model.layers@[i];
        assert(l == Glm4MoeLiteDecoderLayer::layout(args, i, ql, qb));
        assert(value_width(l.self_attn, i as usize, s) == args.v_head_dim) by {
            let heads = args.num_attention_heads as int;
            let width = args.qk_nope_head_dim + args.v_head_dim;
            assert(heads * width == width * heads) by (nonlinear_arith);
            lemma_fundamental_div_mod_converse(heads * width, heads, width, 0);
        }
        assert((s.fan_out)(Site::Layer(i as usize, LayerPart::KvBProj)) % (
        args.num_attention_heads as int) == 0) by {
            let heads = args.num_attention_heads as int;
            let width = args.qk_nope_head_dim + args.v_head_dim;
            assert(heads * width == width * heads) by (nonlinear_arith);
            lemma_fundamental_div_mod_converse(heads * width, heads, width, 0);
        }
        assert(attention_matches(l.self_attn, i as usize, s));
        assert(mlp_matches(l.mlp, i as usize, s));
    }
}

/// The caches that a pass works with are those it was given; if it was given
/// none, it is an empty one for each layer.
pub proof fn law_new_caches_are_empty(given: Seq<Option<SteppingKeyValueCache>>, layers: nat)
    ensures
        given.len() != 0 ==> caches_in_use(given, layers) == given,
        given.len() == 0 ==> caches_in_use(given, layers).len() == layers,
        given.len() == 0 ==> forall|i: int|
            0 <= i < layers ==> #[trigger] caches_in_use(given, layers)[i] == Some(
                SteppingKeyValueCache { offset: 0 },
            ),
{
}

/// A cache has room for more positions if and only if the position behind them is
/// a 32-bit number. Where it has, it ends up there, and on its way it may stop at
/// any position between.
pub proof fn law_positions_add_up(cache: SteppingKeyValueCache, first: i32, second: i32)
    requires
        has_room(Some(cache), first as int),
    ensures
        has_room(Some(cache), second as int) <==> -2147483648 <= cache.offset + second
            <= 2147483647,
        moved(Some(cache), first as int) matches Some(c) && c.offset == cache.offset + first,
        moved(None, first as int) is None,
        has_room(Some(cache), first + second) <==> has_room(
            moved(Some(cache), first as int),
            second as int,
        ),
        has_room(Some(cache), first + second) ==> moved(
            moved(Some(cache), first as int),
            second as int,
        ) == moved(Some(cache), first + second),
{
}

/// A pass that stops at a layer for want of a module has moved on the caches of
/// the layers ahead of it, and that layer's own if its attention was complete; it
/// leaves the others as they are.
pub proof fn law_a_stopped_pass_moves_the_caches_it_came_to(
    m: Glm4MoeLiteCausalLM,
    given: Seq<Option<SteppingKeyValueCache>>,
    length: i32,
    stop: int,
    i: int,
)
    requires
        given.len() == m.model.layers@.len(),
        m.has_room(given, length as int),
        0 <= stop < given.len(),
        forall|j: int|
            0 <= j < stop ==> (#[trigger] m.model.layers@[j]).self_attn.missing() is None
                && m.model.layers@[j].mlp.missing() is None,
        m.model.layers@[stop].self_attn.missing() is Some || m.model.layers@[stop].mlp.missing()
            is Some,
        0 <= i < given.len(),
    ensures
        ({
            let left = m.caches_left(given, length as int);
            let reached = i < stop || (i == stop && m.model.layers@[i].self_attn.missing() is None);
            &&& left.len() == given.len()
            &&& match given[i] {
                Some(c) => left[i] matches Some(d) && d.offset == if reached {
                    c.offset + length
                } else {
                    c.offset as int
                },
                None => left[i] is None,
            }
        }),
{
    let layers = m.model.layers@;
    let n = layers.len();
    lemma_complete_before(layers, stop as nat);
    lemma_complete_stack_caches(layers, given, length as int, stop as nat);
    let at = (stop + 1) as nat;
    assert(layers[stop].missing() is Some);
    assert(stack_missing(layers, at) is Some);
    lemma_stopped_stack_caches(layers, given, length as int, at, n);
    assert(stack_caches(layers, given, length as int, at) == stack_caches(
        layers,
        given,
        length as int,
        stop as nat,
    ).update(stop, layers[stop].self_attn.cache_left(given[stop], length as int)));
    if i < stop {
        lemma_complete_up_to(layers, i as nat, stop as nat);
    }
    if i <= stop {
        assert(stack_missing(layers, i as nat) is None);
        assert(layers[i].has_room(given[i], length as int));
    }
}

proof fn lemma_complete_before(layers: Seq<Glm4MoeLiteDecoderLayer>, n: nat)
    requires
        forall|j: int|
            0 <= j < n ==> (#[trigger] layers[j]).self_attn.missing() is None
                && layers[j].mlp.missing() is None,
    ensures
        stack_missing(layers, n) is None,
    decreases n,
{
    if n > 0 {
        lemma_complete_before(layers, (n - 1) as nat);
        assert(layers[n - 1].missing() is None);
    }
}

proof fn lemma_stopped_stack_caches(
    layers: Seq<Glm4MoeLiteDecoderLayer>,
    caches: Seq<Option<SteppingKeyValueCache>>,
    length: int,
    i: nat,
    n: nat,
)
    requires
        i <= n,
        stack_missing(layers, i) is Some,
    ensures
        stack_missing(layers, n) is Some,
        stack_caches(layers, caches, length, n) == stack_caches(layers, caches, length, i),
    decreases n,
{
    if i < n {
        lemma_stopped_stack_caches(layers, caches, length, i, (n - 1) as nat);
    }
}

/// No operation looks at or changes all caches.
spec fn no_entry_ops(ops: Seq<Op>) -> bool {
    forall|i: int|
        0 <= i < ops.len() ==> !((#[trigger] ops[i]) is CreateMask) && !(ops[i] is FillCaches)
            && !(ops[i] is GivenMask)
}

proof fn lemma_layers_enter_nothing(
    layers: Seq<Glm4MoeLiteDecoderLayer>,
    caches: Seq<Option<SteppingKeyValueCache>>,
    n: nat,
)
    ensures
        no_entry_ops(stack_ops(layers, caches, n)),
    decreases n,
{
    if n > 0 {
        let i = (n - 1) as nat;
        lemma_layers_enter_nothing(layers, caches, i);
        let l = layers[i as int];
        let layer = i as usize;
        let cache = caches[i as int];
        reveal(Glm4MoeLiteAttention::ops);
        reveal(Glm4MoeLiteMlpBlock::ops);
        reveal(Glm4MoeLiteDecoderLayer::ops);
        assert(no_entry_ops(l.self_attn.query_ops(layer)));
        assert(no_entry_ops(l.self_attn.head_ops(layer)));
        assert(no_entry_ops(l.self_attn.position_ops(cache)));
        assert(no_entry_ops(Glm4MoeLiteAttention::cache_ops(layer, cache)));
        assert(no_entry_ops(l.self_attn.output_ops(layer)));
        assert(no_entry_ops(l.self_attn.ops(layer, cache)));
        assert(no_entry_ops(l.mlp.scoring_ops(layer)));
        assert(no_entry_ops(SharedExperts::ops(layer)));
        assert(no_entry_ops(l.mlp.moe_ops(layer)));
        assert(no_entry_ops(l.mlp.dense_ops(layer)));
        assert(no_entry_ops(l.mlp.ops(layer)));
        assert(no_entry_ops(l.ops(layer, cache)));
    }
}

/// A mask is made if and only if none is given, and caches if and only if none
/// are given. A mask is made ahead of the caches, so that it goes by those that
/// were given, and both ahead of every update of a cache.
pub proof fn law_masks_come_ahead_of_caches(
    m: Glm4MoeLiteCausalLM,
    mask_given: bool,
    given: Seq<Option<SteppingKeyValueCache>>,
)
    ensures
        ({
            let ops = m.hidden_ops(mask_given, given);
            &&& mask_given <==> exists|i: int| 0 <= i < ops.len() && #[trigger] ops[i] is GivenMask
            &&& !mask_given <==> exists|i: int|
                0 <= i < ops.len() && #[trigger] ops[i] is CreateMask
            &&& given.len() == 0 <==> exists|i: int|
                0 <= i < ops.len() && #[trigger] ops[i] is FillCaches
            &&& forall|i: int, j: int|
                0 <= i < ops.len() && 0 <= j < ops.len() && (#[trigger] ops[i]) is CreateMask && ((
                #[trigger] ops[j]) is FillCaches || ops[j] is CacheUpdate) ==> i < j
            &&& forall|i: int, j: int|
                0 <= i < ops.len() && 0 <= j < ops.len() && (#[trigger] ops[i]) is FillCaches && (
                #[trigger] ops[j]) is CacheUpdate ==> i < j
        }),
{
    let layers = m.model.layers@;
    let caches = caches_in_use(given, layers.len());
    let ops = m.hidden_ops(mask_given, given);
    let entry = m.entry_ops(mask_given, given);
    let mask_ops = Glm4MoeLiteCausalLM::mask_ops(mask_given, given);
    lemma_layers_enter_nothing(layers, caches, layers.len());
    assert(no_updates(entry));
    let mask = (1 + mask_ops.len()) as int;
    assert(entry[mask] == mask_ops.last());
    assert(ops[mask] == entry[mask]);
    assert(forall|i: int| 0 <= i < entry.len() ==> ops[i] == entry[i]);
    assert(forall|i: int|
        0 <= i < entry.len() ==> ((#[trigger] entry[i]) is CreateMask ==> i == mask) && (entry[i]
            is GivenMask ==> i == mask) && (entry[i] is FillCaches ==> i == mask + 1));
    if given.len() == 0 {
        assert(entry[mask + 1] is FillCaches);
        assert(ops[mask + 1] is FillCaches);
    }
    assert(forall|i: int|
        entry.len() <= i < ops.len() ==> !((#[trigger] ops[i]) is CreateMask) && !(ops[i]
            is FillCaches) && !(ops[i] is GivenMask));
}

} // verus!
