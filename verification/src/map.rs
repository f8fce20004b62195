//! A map kept in the store under a prefix of its own.
use core::marker::PhantomData;
use vstd::prelude::*;
use vstd::bytes::{
    lemma_auto_spec_u64_to_from_le_bytes, spec_u64_from_le_bytes, spec_u64_to_le_bytes,
};
use crate::byte_order::{is_prefix, strictly_increasing};
use crate::codec::{
    decoded_ctx, fixed_width, from_bytes_ctx, round_trips, to_bytes, Cursor, Deserial,
    DeserialStateCtx, ParseError, ParseResult, Serial,
};
use crate::entry::{Entry, OccupiedEntry, VacantEntry};
use crate::entry_raw::EntryRaw;
use crate::store::{
    any_prefixed, without_prefix, ContractStateIter, ContractStateLL, MAX_ENTRY_SIZE,
};
use crate::stream::{content, stored};

verus! {

/// The key in the store of the item `sub` of the collection with the given
/// prefix: the eight bytes of the prefix, then the encoding of the item's
/// own key.
pub open spec fn item_key(prefix: u64, sub: Seq<u8>) -> Seq<u8> {
    spec_u64_to_le_bytes(prefix) + sub
}

/// What a collection finds under `key`: nothing where the store does not
/// hold the key, and otherwise what the bytes kept there decode to.
pub open spec fn value_at<V: DeserialStateCtx>(m: Map<Seq<u8>, Seq<u8>>, key: Seq<u8>) -> Option<
    ParseResult<V>,
> {
    if m.contains_key(key) {
        Some(decoded_ctx::<V>(m[key]))
    } else {
        None
    }
}

/// The key in the store of the item `sub` under `prefix`.
pub fn key_with_prefix<K: Serial>(prefix: u64, sub: &K) -> (key: Vec<u8>)
    ensures
        key@ == item_key(prefix, sub.encoding()),
{
    let mut key = to_bytes(&prefix);
    sub.serial(&mut key);
    key
}

/// Decodes what the store keeps under `key`, if it holds the key.
pub fn read_value<V: DeserialStateCtx>(store: &ContractStateLL, key: &[u8]) -> (r: Option<
    ParseResult<V>,
>)
    requires
        store.wf(),
    ensures
        r == value_at::<V>(store@, key@),
{
    match store.data(key) {
        Some(d) => {
            let bytes = vstd::slice::slice_to_vec(d.as_slice());
            Some(from_bytes_ctx::<V>(store, bytes))
        },
        None => None,
    }
}

/// A well-formed store keeps no key under `prefix` exactly where none of
/// its keys begins with `prefix`.
pub proof fn lemma_none_under(store: &ContractStateLL, prefix: Seq<u8>)
    requires
        store.wf(),
    ensures
        store.keys_under(prefix).len() == 0 <==> !any_prefixed(store@, prefix),
{
    store.lemma_keys_under(prefix);
    let keys = store.keys_under(prefix);
    if keys.len() > 0 {
        let k = keys[0];
        assert(keys.contains(k));
        assert(store@.contains_key(k) && is_prefix(prefix, k));
    }
    if any_prefixed(store@, prefix) {
        let k = choose|k: Seq<u8>| #[trigger] store@.contains_key(k) && is_prefix(prefix, k);
        assert(keys.contains(k));
    }
}

/// A map from `K` to `V` whose items the store keeps under the map's
/// prefix. The map itself holds nothing but the prefix.
pub struct StateMap<K, V> {
    pub prefix: u64,
    pub _marker_key: PhantomData<K>,
    pub _marker_value: PhantomData<V>,
}

impl<K: Serial + Deserial, V: Serial + DeserialStateCtx> StateMap<K, V> {
    /// The map with the given prefix. Nothing is read or written: the map
    /// has the items that the store keeps under the prefix.
    pub fn open(prefix: u64) -> (m: Self)
        ensures
            m.prefix == prefix,
    {
        StateMap { prefix, _marker_key: PhantomData, _marker_value: PhantomData }
    }

    /// The value under `key`, if the map has the key. A value that does
    /// not decode is reported as an error.
    pub fn get(&self, store: &ContractStateLL, key: &K) -> (r: Option<ParseResult<V>>)
        requires
            store.wf(),
        ensures
            r == value_at::<V>(store@, item_key(self.prefix, key.encoding())),
    {
        let k = key_with_prefix(self.prefix, key);
        read_value::<V>(store, k.as_slice())
    }

    /// Puts `value` under `key` and returns what was there before, if the
    /// map had the key.
    pub fn insert(&mut self, store: &mut ContractStateLL, key: K, value: V) -> (r: Option<
        ParseResult<V>,
    >)
        requires
            old(store).wf(),
            value.encoding().len() <= MAX_ENTRY_SIZE,
        ensures
            final(store).wf(),
            *final(self) == *old(self),
            r == value_at::<V>(old(store)@, item_key(old(self).prefix, key.encoding())),
            r is Some <==> old(store)@.contains_key(item_key(old(self).prefix, key.encoding())),
            final(store)@ == stored(
                old(store)@,
                item_key(old(self).prefix, key.encoding()),
                value.encoding(),
            ),
    {
        let key_bytes = key_with_prefix(self.prefix, &key);
        let value_bytes = to_bytes(&value);
        let old_value = read_value::<V>(store, key_bytes.as_slice());
        match store.entry(key_bytes.as_slice()) {
            EntryRaw::Vacant(vac) => {
                let _ = vac.insert(store, value_bytes.as_slice());
            },
            EntryRaw::Occupied(mut occ) => {
                occ.insert(store, value_bytes.as_slice());
            },
        }
        old_value
    }

    /// The entry of `key`: occupied, with the value decoded, if the map has
    /// the key, and vacant if not. It is an error where the map has the key
    /// and the value does not decode. The store is not changed.
    pub fn entry(&mut self, store: &mut ContractStateLL, key: K) -> (r: ParseResult<Entry<K, V>>)
        requires
            old(store).wf(),
        ensures
            *final(store) == *old(store),
            *final(self) == *old(self),
            match value_at::<V>(old(store)@, item_key(old(self).prefix, key.encoding())) {
                None => r matches Ok(Entry::Vacant(vac)) && vac.key == key && vac.state_entry.key@
                    == item_key(old(self).prefix, key.encoding())
                    && vac.state_entry.current_position == 0,
                Some(Ok(v)) => r matches Ok(Entry::Occupied(occ)) && occ.key == key && occ.value
                    == v && occ.state_entry.key@ == item_key(old(self).prefix, key.encoding())
                    && occ.state_entry.current_position == 0,
                Some(Err(_)) => r is Err,
            },
    {
        let key_bytes = key_with_prefix(self.prefix, &key);
        let found = read_value::<V>(store, key_bytes.as_slice());
        match store.entry(key_bytes.as_slice()) {
            EntryRaw::Vacant(vac) => Ok(Entry::Vacant(VacantEntry::new(key, vac.state_entry))),
            EntryRaw::Occupied(occ) => match found {
                Some(Ok(value)) => Ok(
                    Entry::Occupied(OccupiedEntry::new(key, value, occ.state_entry)),
                ),
                _ => Err(ParseError {  }),
            },
        }
    }

    /// Whether the map has no items.
    pub fn is_empty(&self, store: &ContractStateLL) -> (r: bool)
        requires
            store.wf(),
        ensures
            r == !any_prefixed(store@, spec_u64_to_le_bytes(self.prefix)),
    {
        let prefix = to_bytes(&self.prefix);
        let mut it = store.iterator(prefix.as_slice());
        proof {
            lemma_none_under(store, prefix@);
        }
        match it.next() {
            Some(_) => false,
            None => true,
        }
    }

    /// Deletes all items of the map.
    pub fn clear(&mut self, store: &mut ContractStateLL)
        requires
            old(store).wf(),
        ensures
            final(store).wf(),
            *final(self) == *old(self),
            final(store)@ == without_prefix(old(store)@, spec_u64_to_le_bytes(old(self).prefix)),
    {
        let prefix = to_bytes(&self.prefix);
        let _ = store.delete_prefix(prefix.as_slice(), false);
    }

    /// Deletes `key` and returns what was under it, if the map had the key.
    pub fn remove(&mut self, store: &mut ContractStateLL, key: &K) -> (r: Option<ParseResult<V>>)
        requires
            old(store).wf(),
        ensures
            final(store).wf(),
            *final(self) == *old(self),
            r == value_at::<V>(old(store)@, item_key(old(self).prefix, key.encoding())),
            final(store)@ == old(store)@.remove(item_key(old(self).prefix, key.encoding())),
    {
        let key_bytes = key_with_prefix(self.prefix, key);
        let old_value = read_value::<V>(store, key_bytes.as_slice());
        match store.entry(key_bytes.as_slice()) {
            EntryRaw::Vacant(_) => {
                assert(store@.remove(key_bytes@) =~= store@);
            },
            EntryRaw::Occupied(occ) => {
                let _existed = store.delete_entry(occ.get());
            },
        }
        old_value
    }
}

/// The part of a key in the store that stands for the item's own key: what
/// follows the eight bytes of the prefix.
pub open spec fn sub_key(key: Seq<u8>) -> Seq<u8> {
    if key.len() >= 8 {
        key.subrange(8, key.len() as int)
    } else {
        Seq::empty()
    }
}

/// The item of a map that the store keeps under `key`: its key decoded from
/// the bytes behind the prefix, and its value from the bytes kept under
/// `key`. It is an error where one of them does not decode.
pub open spec fn item_at<K: Deserial, V: DeserialStateCtx>(
    m: Map<Seq<u8>, Seq<u8>>,
    key: Seq<u8>,
) -> ParseResult<(K, V)> {
    match K::parse(sub_key(key)) {
        Some((k, _)) => match V::parse_ctx(content(m, key)) {
            Some((v, _)) => Ok((k, v)),
            None => Err(ParseError {  }),
        },
        None => Err(ParseError {  }),
    }
}

/// A walk over the items of a map, in the byte order of their keys.
pub struct StateMapIter<'a, K, V> {
    pub state_iter: ContractStateIter<'a>,
    pub _marker_key: PhantomData<K>,
    pub _marker_value: PhantomData<V>,
}

impl<'a, K: Serial + Deserial, V: Serial + DeserialStateCtx> StateMapIter<'a, K, V> {
    /// The next item, or nothing where none is left. An item that does not
    /// decode is reported as an error, and the walk goes on behind it.
    pub fn next(&mut self) -> (r: Option<ParseResult<(K, V)>>)
        requires
            old(self).state_iter.wf(),
        ensures
            final(self).state_iter.wf(),
            final(self).state_iter.store() == old(self).state_iter.store(),
            old(self).state_iter.remaining().len() == 0 ==> r is None
                && final(self).state_iter.remaining() == old(self).state_iter.remaining(),
            old(self).state_iter.remaining().len() > 0 ==> r == Some(
                item_at::<K, V>(
                    old(self).state_iter.store()@,
                    old(self).state_iter.remaining()[0],
                ),
            ) && final(self).state_iter.remaining()
                == old(self).state_iter.remaining().drop_first(),
    {
        proof {
            self.state_iter.lemma_store_wf();
        }
        let store = self.state_iter.get_store();
        match self.state_iter.next() {
            None => None,
            Some(entry) => {
                let value_bytes = entry.rest(store);
                assert(value_bytes@ =~= content(store@, entry.key@));
                let mut key_cursor = Cursor { data: entry.get_key(), offset: 8 };
                match K::deserial(&mut key_cursor) {
                    Err(_) => Some(Err(ParseError {  })),
                    Ok(the_key) => match from_bytes_ctx::<V>(store, value_bytes) {
                        Err(_) => Some(Err(ParseError {  })),
                        Ok(the_value) => Some(Ok((the_key, the_value))),
                    },
                }
            },
        }
    }
}

impl<K: Serial + Deserial, V: Serial + DeserialStateCtx> StateMap<K, V> {
    /// A walk over the items of the map, in the byte order of their keys in
    /// the store.
    pub fn iter<'a>(&self, store: &'a ContractStateLL) -> (it: StateMapIter<'a, K, V>)
        requires
            store.wf(),
        ensures
            it.state_iter.wf(),
            it.state_iter.store() == store,
            it.state_iter.remaining() == store.keys_under(spec_u64_to_le_bytes(self.prefix)),
            strictly_increasing(it.state_iter.remaining()),
    {
        let prefix = to_bytes(&self.prefix);
        proof {
            store.lemma_keys_under(prefix@);
        }
        StateMapIter {
            state_iter: store.iterator(prefix.as_slice()),
            _marker_key: PhantomData,
            _marker_value: PhantomData,
        }
    }
}

impl<K, V> Serial for StateMap<K, V> {
    open spec fn encoding(&self) -> Seq<u8> {
        spec_u64_to_le_bytes(self.prefix)
    }

    fn serial(&self, out: &mut Vec<u8>) {
        self.prefix.serial(out);
    }
}

impl<K, V> DeserialStateCtx for StateMap<K, V> {
    open spec fn parse_ctx(bytes: Seq<u8>) -> Option<(Self, int)> {
        fixed_width(
            bytes,
            8,
            StateMap {
                prefix: spec_u64_from_le_bytes(bytes.subrange(0, 8)),
                _marker_key: PhantomData,
                _marker_value: PhantomData,
            },
        )
    }

    fn deserial_state_ctx(state: &ContractStateLL, source: &mut Cursor) -> (r: ParseResult<Self>) {
        match u64::deserial(source) {
            Ok(prefix) => Ok(
                StateMap { prefix, _marker_key: PhantomData, _marker_value: PhantomData },
            ),
            Err(_) => Err(ParseError {  }),
        }
    }
}

/// A map is written as its prefix and read back as the same map.
pub proof fn lemma_map_round_trip<K, V>(m: StateMap<K, V>)
    ensures
        round_trips(m),
{
    lemma_auto_spec_u64_to_from_le_bytes();
    assert forall|rest: Seq<u8>| #[trigger]
        StateMap::<K, V>::parse_ctx(m.encoding() + rest) == Some(
            (m, m.encoding().len() as int),
        ) by {
        assert((m.encoding() + rest).subrange(0, 8) =~= m.encoding());
    }
}

} // verus!
