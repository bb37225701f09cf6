//! The key and value caches of the layers.
use vstd::prelude::*;

verus! {

/// What a forward pass needs to know of the cache of a layer. The keys and
/// values themselves belong to whoever plays the tape.
#[derive(Debug, Clone, Copy, PartialEq, Eq, Structural)]
pub struct SteppingKeyValueCache {
    /// The position at which the next keys and values go in: as many positions
    /// as the cache holds.
    pub offset: i32,
}

/// The cache of a layer, behind `length` more positions.
pub open spec fn moved(
    cache: Option<SteppingKeyValueCache>,
    length: int,
) -> Option<SteppingKeyValueCache> {
    match cache {
        Some(c) => Some(SteppingKeyValueCache { offset: (c.offset + length) as i32 }),
        None => None,
    }
}

/// The cache of a layer has room for `length` more positions: its offset behind
/// them fits its type.
pub open spec fn has_room(cache: Option<SteppingKeyValueCache>, length: int) -> bool {
    cache matches Some(c) ==> i32::MIN <= c.offset + length <= i32::MAX
}

impl SteppingKeyValueCache {
    /// An empty cache.
    pub fn new() -> (cache: Self)
        ensures
            cache.offset == 0,
    {
        SteppingKeyValueCache { offset: 0 }
    }
}

/// Moves the cache of a layer, if it has one, behind `length` more positions.
pub fn move_on(cache: &mut Option<SteppingKeyValueCache>, length: i32)
    requires
        has_room(*old(cache), length as int),
    ensures
        *final(cache) == moved(*old(cache), length as int),
{
    match *cache {
        Some(c) => {
            *cache = Some(SteppingKeyValueCache { offset: c.offset + length });
        },
        None => {},
    }
}

/// Whether all caches have room for `length` more positions.
pub fn all_have_room(kv_cache: &Vec<Option<SteppingKeyValueCache>>, length: i32) -> (room: bool)
    ensures
        room == forall|i: int|
            0 <= i < kv_cache@.len() ==> has_room(#[trigger] kv_cache@[i], length as int),
{
    let mut i: usize = 0;
    while i < kv_cache.len()
        invariant
            i <= kv_cache@.len(),
            forall|k: int| 0 <= k < i ==> has_room(#[trigger] kv_cache@[k], length as int),
        decreases kv_cache@.len() - i,
    {
        let end: i64 = match kv_cache[i] {
            Some(c) => c.offset as i64 + length as i64,
            None => 0,
        };
        if end < -0x8000_0000 || end > 0x7FFF_FFFF {
            assert(!has_room(kv_cache@[i as int], length as int));
            return false;
        }
        i = i + 1;
    }
    true
}

/// The position at which a layer starts: that of its cache, or 0 without one.
pub open spec fn start_of(cache: Option<SteppingKeyValueCache>) -> i32 {
    match cache {
        Some(c) => c.offset,
        None => 0,
    }
}

} // verus!
