//! The allocator of prefixes, and the area of single keys beside them.
//!
//! The store keeps a counter under the key of prefix 0: the next prefix to
//! hand out. Prefix 1 is the area of single keys. The first prefix handed
//! out is 2.
use vstd::prelude::*;
use vstd::bytes::{
    lemma_auto_spec_u64_to_from_le_bytes, spec_u64_from_le_bytes, spec_u64_to_le_bytes,
};
use crate::codec::{to_bytes, DeserialStateCtx, Deserial, ParseResult, Serial};
use crate::map::{item_key, key_with_prefix, read_value, value_at, StateMap};
use crate::set::StateSet;
use crate::state_box::{store_value, StateBox};
use crate::store::{ContractStateLL, MAX_ENTRY_SIZE};
use crate::stream::{content, overwritten, stored, SeekFrom};

verus! {

/// The prefix under whose key the counter is kept.
pub const NEXT_COLLECTION_PREFIX_KEY: u64 = 0;

/// The prefix of the area of single keys.
pub const GENERIC_MAP_PREFIX: u64 = 1;

/// The first prefix that is handed out.
pub const INITIAL_NEXT_COLLECTION_PREFIX: u64 = 2;

/// The key of the counter.
pub open spec fn counter_key() -> Seq<u8> {
    spec_u64_to_le_bytes(NEXT_COLLECTION_PREFIX_KEY)
}

/// The bytes of the counter: those that the store keeps, or those of the
/// first prefix where it keeps none yet.
pub open spec fn counter_bytes(m: Map<Seq<u8>, Seq<u8>>) -> Seq<u8> {
    if m.contains_key(counter_key()) {
        m[counter_key()]
    } else {
        spec_u64_to_le_bytes(INITIAL_NEXT_COLLECTION_PREFIX)
    }
}

/// The prefix that is handed out next, or nothing where the bytes of the
/// counter are too few to be a number.
pub open spec fn next_prefix(m: Map<Seq<u8>, Seq<u8>>) -> Option<u64> {
    if counter_bytes(m).len() >= 8 {
        Some(spec_u64_from_le_bytes(counter_bytes(m).subrange(0, 8)))
    } else {
        None
    }
}

/// A prefix can be handed out: the counter is a number, and not the
/// largest one.
pub open spec fn can_allocate(m: Map<Seq<u8>, Seq<u8>>) -> bool {
    next_prefix(m) matches Some(p) && p < u64::MAX
}

/// The store after the prefix `p` was handed out: the counter holds `p + 1`.
pub open spec fn after_allocation(m: Map<Seq<u8>, Seq<u8>>, p: u64) -> Map<Seq<u8>, Seq<u8>> {
    m.insert(counter_key(), overwritten(counter_bytes(m), 0, spec_u64_to_le_bytes((p + 1) as u64)))
}

/// After a prefix was handed out, the next one is the one after it.
pub proof fn lemma_after_allocation(m: Map<Seq<u8>, Seq<u8>>, p: u64)
    requires
        next_prefix(m) == Some(p),
        p < u64::MAX,
    ensures
        next_prefix(after_allocation(m, p)) == Some((p + 1) as u64),
{
    lemma_auto_spec_u64_to_from_le_bytes();
    let bytes = spec_u64_to_le_bytes((p + 1) as u64);
    let after = overwritten(counter_bytes(m), 0, bytes);
    assert(after.subrange(0, 8) =~= bytes);
}

/// The owner of the store, which hands out the prefixes of new collections.
pub struct Allocator {
    pub state_ll: ContractStateLL,
}

impl Allocator {
    /// The allocator of the given store. The store stays as it is: a
    /// counter that it holds goes on from where it stood.
    pub fn open(state_ll: ContractStateLL) -> (a: Allocator)
        ensures
            a.state_ll == state_ll,
    {
        Allocator { state_ll }
    }

    /// The prefix that would be handed out next, or nothing where the
    /// counter is not a number.
    pub fn peek_prefix(&self) -> (r: Option<u64>)
        requires
            self.state_ll.wf(),
        ensures
            r == next_prefix(self.state_ll@),
    {
        let entry_key = to_bytes(&NEXT_COLLECTION_PREFIX_KEY);
        match self.state_ll.lookup(entry_key.as_slice()) {
            None => {
                proof {
                    lemma_auto_spec_u64_to_from_le_bytes();
                    assert(spec_u64_to_le_bytes(INITIAL_NEXT_COLLECTION_PREFIX).subrange(0, 8)
                        =~= spec_u64_to_le_bytes(INITIAL_NEXT_COLLECTION_PREFIX));
                }
                Some(INITIAL_NEXT_COLLECTION_PREFIX)
            },
            Some(mut entry) => match entry.read_u64(&self.state_ll) {
                Ok(p) => Some(p),
                Err(_) => None,
            },
        }
    }

    /// Hands out the next prefix and moves the counter on by one. The
    /// counter is created first, at the first prefix, where the store does
    /// not hold it yet.
    pub fn get_and_update_item_prefix(&mut self) -> (p: u64)
        requires
            old(self).state_ll.wf(),
            can_allocate(old(self).state_ll@),
        ensures
            final(self).state_ll.wf(),
            next_prefix(old(self).state_ll@) == Some(p),
            next_prefix(final(self).state_ll@) == Some((p + 1) as u64),
            final(self).state_ll@ == after_allocation(old(self).state_ll@, p),
    {
        let entry_key = to_bytes(&NEXT_COLLECTION_PREFIX_KEY);
        let default_prefix = to_bytes(&INITIAL_NEXT_COLLECTION_PREFIX);
        let ghost before = self.state_ll@;
        proof {
            lemma_auto_spec_u64_to_from_le_bytes();
        }
        let raw = self.state_ll.entry(entry_key.as_slice());
        let mut counter = raw.or_insert(&mut self.state_ll, default_prefix.as_slice());
        let ghost created = self.state_ll@;
        assert(content(created, counter_key()) == counter_bytes(before));
        assert(created.insert(counter_key(), counter_bytes(before)) =~= created);
        let p = match counter.read_u64(&self.state_ll) {
            Ok(p) => p,
            Err(_) => {
                assert(false);
                0
            },
        };
        let _ = counter.seek(&self.state_ll, SeekFrom::Start(0));
        let next = to_bytes(&(p + 1));
        let _ = counter.write_all(&mut self.state_ll, next.as_slice());
        proof {
            assert(self.state_ll@ =~= after_allocation(before, p));
            lemma_after_allocation(before, p);
        }
        p
    }

    /// A new, empty map with a prefix of its own.
    pub fn new_map<K: Serial + Deserial, V: Serial + DeserialStateCtx>(&mut self) -> (m: StateMap<
        K,
        V,
    >)
        requires
            old(self).state_ll.wf(),
            can_allocate(old(self).state_ll@),
        ensures
            final(self).state_ll.wf(),
            next_prefix(old(self).state_ll@) == Some(m.prefix),
            next_prefix(final(self).state_ll@) == Some((m.prefix + 1) as u64),
            final(self).state_ll@ == after_allocation(old(self).state_ll@, m.prefix),
    {
        let prefix = self.get_and_update_item_prefix();
        StateMap::open(prefix)
    }

    /// A new, empty set with a prefix of its own.
    pub fn new_set<T: Serial + DeserialStateCtx>(&mut self) -> (s: StateSet<T>)
        requires
            old(self).state_ll.wf(),
            can_allocate(old(self).state_ll@),
        ensures
            final(self).state_ll.wf(),
            next_prefix(old(self).state_ll@) == Some(s.prefix),
            next_prefix(final(self).state_ll@) == Some((s.prefix + 1) as u64),
            final(self).state_ll@ == after_allocation(old(self).state_ll@, s.prefix),
    {
        let prefix = self.get_and_update_item_prefix();
        StateSet::open(prefix)
    }

    /// A new box with a prefix of its own, holding `value`.
    pub fn new_box<T: Serial + DeserialStateCtx>(&mut self, value: T) -> (b: StateBox<T>)
        requires
            old(self).state_ll.wf(),
            can_allocate(old(self).state_ll@),
            value.encoding().len() <= MAX_ENTRY_SIZE,
        ensures
            final(self).state_ll.wf(),
            next_prefix(old(self).state_ll@) == Some(b.prefix),
            final(self).state_ll@ == stored(
                after_allocation(old(self).state_ll@, b.prefix),
                spec_u64_to_le_bytes(b.prefix),
                value.encoding(),
            ),
    {
        let prefix = self.get_and_update_item_prefix();
        StateBox::new(value, &mut self.state_ll, prefix)
    }

    /// The value kept under `key` in the area of single keys, if there is
    /// one. A value that does not decode is reported as an error.
    pub fn get<K: Serial, V: DeserialStateCtx>(&self, key: K) -> (r: Option<ParseResult<V>>)
        requires
            self.state_ll.wf(),
        ensures
            r == value_at::<V>(self.state_ll@, item_key(GENERIC_MAP_PREFIX, key.encoding())),
    {
        let key_with_map_prefix = Self::prepend_generic_map_key(key);
        read_value::<V>(&self.state_ll, key_with_map_prefix.as_slice())
    }

    /// Puts `value` under `key` in the area of single keys.
    pub fn insert<K: Serial, V: Serial>(&mut self, key: K, value: V)
        requires
            old(self).state_ll.wf(),
            value.encoding().len() <= MAX_ENTRY_SIZE,
        ensures
            final(self).state_ll.wf(),
            final(self).state_ll@ == stored(
                old(self).state_ll@,
                item_key(GENERIC_MAP_PREFIX, key.encoding()),
                value.encoding(),
            ),
    {
        let key_with_map_prefix = Self::prepend_generic_map_key(key);
        store_value(&value, key_with_map_prefix.as_slice(), &mut self.state_ll);
    }

    /// The key of `key` in the area of single keys.
    pub fn prepend_generic_map_key<K: Serial>(key: K) -> (r: Vec<u8>)
        ensures
            r@ == item_key(GENERIC_MAP_PREFIX, key.encoding()),
    {
        key_with_prefix(GENERIC_MAP_PREFIX, &key)
    }
}

} // verus!
