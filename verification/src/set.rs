//! A set kept in the store under a prefix of its own.
use core::marker::PhantomData;
use vstd::prelude::*;
use vstd::bytes::{
    lemma_auto_spec_u64_to_from_le_bytes, spec_u64_from_le_bytes, spec_u64_to_le_bytes,
};
use crate::byte_order::strictly_increasing;
use crate::codec::{
    decoded_ctx, fixed_width, round_trips, to_bytes, Cursor, Deserial, DeserialStateCtx,
    ParseError, ParseResult, Serial,
};
use crate::entry_raw::EntryRaw;
use crate::map::{item_key, key_with_prefix, sub_key};
use crate::store::{ContractStateIter, ContractStateLL};

verus! {

/// A set of `T` whose elements the store keeps as keys under the set's
/// prefix, each with no bytes under it. The set itself holds nothing but
/// the prefix.
pub struct StateSet<T> {
    pub prefix: u64,
    pub _marker: PhantomData<T>,
}

/// A walk over the elements of a set, in the byte order of their keys.
pub struct StateSetIter<'a, T> {
    pub state_iter: ContractStateIter<'a>,
    pub _marker: PhantomData<T>,
}

impl<T: Serial + DeserialStateCtx> StateSet<T> {
    /// The set with the given prefix. Nothing is read or written: the set
    /// has the elements that the store keeps under the prefix.
    pub fn open(prefix: u64) -> (s: Self)
        ensures
            s.prefix == prefix,
    {
        StateSet { prefix, _marker: PhantomData }
    }

    /// Adds `value` to the set. Says whether the set did not have it
    /// before.
    pub fn insert(&mut self, store: &mut ContractStateLL, value: T) -> (added: bool)
        requires
            old(store).wf(),
        ensures
            final(store).wf(),
            *final(self) == *old(self),
            added == !old(store)@.contains_key(item_key(old(self).prefix, value.encoding())),
            final(store)@ == if added {
                old(store)@.insert(item_key(old(self).prefix, value.encoding()), Seq::empty())
            } else {
                old(store)@
            },
    {
        let key_bytes = key_with_prefix(self.prefix, &value);
        match store.entry(key_bytes.as_slice()) {
            EntryRaw::Vacant(vac) => {
                let nothing: Vec<u8> = Vec::new();
                let _ = vac.insert(store, nothing.as_slice());
                true
            },
            EntryRaw::Occupied(_) => false,
        }
    }

    /// Whether the set has `value`.
    pub fn contains(&self, store: &ContractStateLL, value: &T) -> (r: bool)
        requires
            store.wf(),
        ensures
            r == store@.contains_key(item_key(self.prefix, value.encoding())),
    {
        let key_bytes = key_with_prefix(self.prefix, value);
        store.lookup(key_bytes.as_slice()).is_some()
    }

    /// Takes `value` out of the set. Says whether the set had it.
    pub fn remove(&mut self, store: &mut ContractStateLL, value: &T) -> (removed: bool)
        requires
            old(store).wf(),
        ensures
            final(store).wf(),
            *final(self) == *old(self),
            removed == old(store)@.contains_key(item_key(old(self).prefix, value.encoding())),
            final(store)@ == old(store)@.remove(item_key(old(self).prefix, value.encoding())),
    {
        let key_bytes = key_with_prefix(self.prefix, value);
        let entry_opt = match store.entry(key_bytes.as_slice()) {
            EntryRaw::Vacant(_) => None,
            EntryRaw::Occupied(occ) => Some(occ.get()),
        };
        match entry_opt {
            Some(entry) => {
                let _ = store.delete_entry(entry);
                true
            },
            None => {
                assert(store@.remove(key_bytes@) =~= store@);
                false
            },
        }
    }

    /// A walk over the elements of the set, in the byte order of their keys
    /// in the store.
    pub fn iter<'a>(&self, store: &'a ContractStateLL) -> (it: StateSetIter<'a, T>)
        requires
            store.wf(),
        ensures
            it.state_iter.wf(),
            it.state_iter.store() == store,
            it.state_iter.remaining() == store.keys_under(spec_u64_to_le_bytes(self.prefix)),
            strictly_increasing(it.state_iter.remaining()),
    {
        let prefix = to_bytes(&self.prefix);
        proof {
            store.lemma_keys_under(prefix@);
        }
        StateSetIter { state_iter: store.iterator(prefix.as_slice()), _marker: PhantomData }
    }
}

impl<'a, T: Serial + DeserialStateCtx> StateSetIter<'a, T> {
    /// The next element, decoded from the bytes of its key behind the
    /// prefix, or nothing where none is left. An element that does not
    /// decode is reported as an error, and the walk goes on behind it.
    pub fn next(&mut self) -> (r: Option<ParseResult<T>>)
        requires
            old(self).state_iter.wf(),
        ensures
            final(self).state_iter.wf(),
            final(self).state_iter.store() == old(self).state_iter.store(),
            old(self).state_iter.remaining().len() == 0 ==> r is None
                && final(self).state_iter.remaining() == old(self).state_iter.remaining(),
            old(self).state_iter.remaining().len() > 0 ==> r == Some(
                decoded_ctx::<T>(sub_key(old(self).state_iter.remaining()[0])),
            ) && final(self).state_iter.remaining()
                == old(self).state_iter.remaining().drop_first(),
    {
        let store = self.state_iter.get_store();
        match self.state_iter.next() {
            None => None,
            Some(entry) => {
                let mut key_cursor = Cursor { data: entry.get_key(), offset: 8 };
                match T::deserial_state_ctx(store, &mut key_cursor) {
                    Err(_) => Some(Err(ParseError {  })),
                    Ok(value) => Some(Ok(value)),
                }
            },
        }
    }
}

impl<T> Serial for StateSet<T> {
    open spec fn encoding(&self) -> Seq<u8> {
        spec_u64_to_le_bytes(self.prefix)
    }

    fn serial(&self, out: &mut Vec<u8>) {
        self.prefix.serial(out);
    }
}

impl<T> DeserialStateCtx for StateSet<T> {
    open spec fn parse_ctx(bytes: Seq<u8>) -> Option<(Self, int)> {
        fixed_width(
            bytes,
            8,
            StateSet { prefix: spec_u64_from_le_bytes(bytes.subrange(0, 8)), _marker: PhantomData },
        )
    }

    fn deserial_state_ctx(state: &ContractStateLL, source: &mut Cursor) -> (r: ParseResult<Self>) {
        match u64::deserial(source) {
            Ok(prefix) => Ok(StateSet { prefix, _marker: PhantomData }),
            Err(_) => Err(ParseError {  }),
        }
    }
}

/// A set is written as its prefix and read back as the same set.
pub proof fn lemma_set_round_trip<T>(s: StateSet<T>)
    ensures
        round_trips(s),
{
    lemma_auto_spec_u64_to_from_le_bytes();
    assert forall|rest: Seq<u8>| #[trigger]
        StateSet::<T>::parse_ctx(s.encoding() + rest) == Some((s, s.encoding().len() as int)) by {
        assert((s.encoding() + rest).subrange(0, 8) =~= s.encoding());
    }
}

} // verus!
