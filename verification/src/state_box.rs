//! A single value kept in the store at a prefix of its own.
use core::marker::PhantomData;
use vstd::prelude::*;
use vstd::bytes::{
    lemma_auto_spec_u64_to_from_le_bytes, spec_u64_from_le_bytes, spec_u64_to_le_bytes,
};
use crate::codec::{
    fixed_width, round_trips, to_bytes, Cursor, Deserial, DeserialStateCtx, ParseError,
    ParseResult, Serial,
};
use crate::entry_raw::EntryRaw;
use crate::map::{read_value, value_at};
use crate::store::{ContractStateLL, MAX_ENTRY_SIZE};
use crate::stream::stored;

verus! {

/// Writes the encoding of `value` under `key`, over the start of what is
/// kept there.
pub fn store_value<T: Serial>(value: &T, key: &[u8], store: &mut ContractStateLL)
    requires
        old(store).wf(),
        value.encoding().len() <= MAX_ENTRY_SIZE,
    ensures
        final(store).wf(),
        final(store)@ == stored(old(store)@, key@, value.encoding()),
{
    let bytes = to_bytes(value);
    match store.entry(key) {
        EntryRaw::Vacant(vac) => {
            let _ = vac.insert(store, bytes.as_slice());
        },
        EntryRaw::Occupied(mut occ) => {
            occ.insert(store, bytes.as_slice());
        },
    }
}

/// Decodes the value kept under `key`. It is an error where the store does
/// not hold the key or the bytes do not decode.
pub fn load_value<T: DeserialStateCtx>(key: &[u8], store: &ContractStateLL) -> (r: ParseResult<T>)
    requires
        store.wf(),
    ensures
        r == match value_at::<T>(store@, key@) {
            Some(v) => v,
            None => Err(ParseError {  }),
        },
{
    match read_value::<T>(store, key) {
        Some(v) => v,
        None => Err(ParseError {  }),
    }
}

/// One value of type `T` that the store keeps at the box's prefix. The box
/// itself holds nothing but the prefix, so the value may in turn own
/// collections and boxes.
pub struct StateBox<T> {
    pub prefix: u64,
    pub _marker: PhantomData<T>,
}

impl<T: Serial + DeserialStateCtx> StateBox<T> {
    /// Puts `value` in the store at `prefix` and returns its box.
    pub fn new(value: T, store: &mut ContractStateLL, prefix: u64) -> (b: Self)
        requires
            old(store).wf(),
            value.encoding().len() <= MAX_ENTRY_SIZE,
        ensures
            final(store).wf(),
            b.prefix == prefix,
            final(store)@ == stored(old(store)@, spec_u64_to_le_bytes(prefix), value.encoding()),
    {
        let prefix_bytes = to_bytes(&prefix);
        store_value(&value, prefix_bytes.as_slice(), store);
        StateBox { prefix, _marker: PhantomData }
    }

    /// The box at `prefix`. Nothing is read or written: the box holds what
    /// the store keeps at the prefix, if anything.
    pub fn open_at(prefix: u64) -> (b: Self)
        ensures
            b.prefix == prefix,
    {
        StateBox { prefix, _marker: PhantomData }
    }

    /// A copy of the value, decoded from the store, or nothing where the
    /// box was never filled.
    pub fn get_copy(&self, store: &ContractStateLL) -> (r: Option<ParseResult<T>>)
        requires
            store.wf(),
        ensures
            r == value_at::<T>(store@, spec_u64_to_le_bytes(self.prefix)),
    {
        let prefix_bytes = to_bytes(&self.prefix);
        read_value::<T>(store, prefix_bytes.as_slice())
    }

    /// Puts `new_val` in the box, in place of what was there.
    pub fn set(&mut self, store: &mut ContractStateLL, new_val: T)
        requires
            old(store).wf(),
            new_val.encoding().len() <= MAX_ENTRY_SIZE,
        ensures
            final(store).wf(),
            *final(self) == *old(self),
            final(store)@ == stored(
                old(store)@,
                spec_u64_to_le_bytes(old(self).prefix),
                new_val.encoding(),
            ),
    {
        let prefix_bytes = to_bytes(&self.prefix);
        store_value(&new_val, prefix_bytes.as_slice(), store);
    }

    /// Puts in the box what `f` makes of the value in it. Returns nothing,
    /// and changes nothing, where the box was never filled, and an error
    /// where its bytes do not decode.
    pub fn update<F: FnOnce(&T) -> T>(&mut self, store: &mut ContractStateLL, f: F) -> (r: Option<
        ParseResult<()>,
    >)
        requires
            old(store).wf(),
            forall|v: T|
                value_at::<T>(old(store)@, spec_u64_to_le_bytes(old(self).prefix)) == Some(
                    Ok::<T, ParseError>(v),
                ) ==> call_requires(f, (&v,)),
            forall|v: T, w: T|
                value_at::<T>(old(store)@, spec_u64_to_le_bytes(old(self).prefix)) == Some(
                    Ok::<T, ParseError>(v),
                ) && call_ensures(f, (&v,), w) ==> w.encoding().len() <= MAX_ENTRY_SIZE,
        ensures
            final(store).wf(),
            *final(self) == *old(self),
            match value_at::<T>(old(store)@, spec_u64_to_le_bytes(old(self).prefix)) {
                None => r is None && *final(store) == *old(store),
                Some(Err(_)) => r == Some(Err::<(), ParseError>(ParseError {  })) && *final(store)
                    == *old(store),
                Some(Ok(v)) => r == Some(Ok::<(), ParseError>(())) && exists|w: T|
                    call_ensures(f, (&v,), w) && final(store)@ == stored(
                        old(store)@,
                        spec_u64_to_le_bytes(old(self).prefix),
                        w.encoding(),
                    ),
            },
    {
        let prefix_bytes = to_bytes(&self.prefix);
        match read_value::<T>(store, prefix_bytes.as_slice()) {
            None => None,
            Some(Err(_)) => Some(Err(ParseError {  })),
            Some(Ok(old_value)) => {
                let new_value = f(&old_value);
                store_value(&new_value, prefix_bytes.as_slice(), store);
                Some(Ok(()))
            },
        }
    }
}

impl<T> Serial for StateBox<T> {
    open spec fn encoding(&self) -> Seq<u8> {
        spec_u64_to_le_bytes(self.prefix)
    }

    fn serial(&self, out: &mut Vec<u8>) {
        self.prefix.serial(out);
    }
}

impl<T> DeserialStateCtx for StateBox<T> {
    open spec fn parse_ctx(bytes: Seq<u8>) -> Option<(Self, int)> {
        fixed_width(
            bytes,
            8,
            StateBox { prefix: spec_u64_from_le_bytes(bytes.subrange(0, 8)), _marker: PhantomData },
        )
    }

    fn deserial_state_ctx(state: &ContractStateLL, source: &mut Cursor) -> (r: ParseResult<Self>) {
        match u64::deserial(source) {
            Ok(prefix) => Ok(StateBox { prefix, _marker: PhantomData }),
            Err(_) => Err(ParseError {  }),
        }
    }
}

/// A box is written as its prefix and read back as the same box.
pub proof fn lemma_box_round_trip<T>(b: StateBox<T>)
    ensures
        round_trips(b),
{
    lemma_auto_spec_u64_to_from_le_bytes();
    assert forall|rest: Seq<u8>| #[trigger]
        StateBox::<T>::parse_ctx(b.encoding() + rest) == Some((b, b.encoding().len() as int)) by {
        assert((b.encoding() + rest).subrange(0, 8) =~= b.encoding());
    }
}

} // verus!
