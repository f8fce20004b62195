//! The entry of one key of a map, with the key and, where the map has it,
//! the value decoded.
use core::marker::PhantomData;
use vstd::prelude::*;
use crate::codec::{to_bytes, Serial};
use crate::store::{ContractStateLL, MAX_ENTRY_SIZE};
use crate::stream::{content, overwritten, stored, StateEntry};

verus! {

/// A key that the map does not have.
pub struct VacantEntry<K, V> {
    pub key: K,
    pub state_entry: StateEntry,
    pub _marker_value: PhantomData<V>,
}

/// A key that the map has, with a copy of its value.
pub struct OccupiedEntry<K, V> {
    pub key: K,
    pub value: V,
    pub state_entry: StateEntry,
}

/// The entry of a key of a map, vacant or occupied.
pub enum Entry<K, V> {
    Vacant(VacantEntry<K, V>),
    Occupied(OccupiedEntry<K, V>),
}

impl<K: Serial, V: Serial> VacantEntry<K, V> {
    /// The vacant entry of `key` with the given stream.
    pub fn new(key: K, state_entry: StateEntry) -> (e: Self)
        ensures
            e.key == key,
            e.state_entry == state_entry,
    {
        VacantEntry { key, state_entry, _marker_value: PhantomData }
    }

    /// The key.
    pub fn key(&self) -> (k: &K)
        ensures
            *k == self.key,
    {
        &self.key
    }

    /// The key, for the entry.
    pub fn into_key(self) -> (k: K)
        ensures
            k == self.key,
    {
        self.key
    }

    /// Writes `value` at the stream's cursor, which creates the entry in
    /// the store.
    pub fn insert(self, store: &mut ContractStateLL, value: V)
        requires
            old(store).wf(),
            self.state_entry.current_position + value.encoding().len() <= MAX_ENTRY_SIZE,
        ensures
            final(store).wf(),
            final(store)@ == old(store)@.insert(
                self.state_entry.key@,
                overwritten(
                    content(old(store)@, self.state_entry.key@),
                    self.state_entry.current_position as int,
                    value.encoding(),
                ),
            ),
    {
        let mut state_entry = self.state_entry;
        let bytes = to_bytes(&value);
        let _ = state_entry.write_all(store, bytes.as_slice());
    }
}

impl<K: Serial, V: Serial> OccupiedEntry<K, V> {
    /// The occupied entry of `key` with its value and the given stream.
    pub fn new(key: K, value: V, state_entry: StateEntry) -> (e: Self)
        ensures
            e.key == key,
            e.value == value,
            e.state_entry == state_entry,
    {
        OccupiedEntry { key, value, state_entry }
    }

    /// The key.
    pub fn key(&self) -> (k: &K)
        ensures
            *k == self.key,
    {
        &self.key
    }

    /// Writes `value` over the start of the entry in the store.
    pub fn insert(self, store: &mut ContractStateLL, value: V)
        requires
            old(store).wf(),
            value.encoding().len() <= MAX_ENTRY_SIZE,
        ensures
            final(store).wf(),
            final(store)@ == stored(old(store)@, self.state_entry.key@, value.encoding()),
    {
        let mut state_entry = self.state_entry;
        state_entry.current_position = 0;
        let bytes = to_bytes(&value);
        let _ = state_entry.write_all(store, bytes.as_slice());
    }

    /// The copy of the value.
    pub fn get_ref(&self) -> (v: &V)
        ensures
            *v == self.value,
    {
        &self.value
    }

    /// The copy of the value, for the entry.
    pub fn get(self) -> (v: V)
        ensures
            v == self.value,
    {
        self.value
    }

    /// Replaces the value by what `f` makes of it, and writes the new value
    /// over the start of the entry in the store.
    pub fn modify<F: FnOnce(&V) -> V>(&mut self, store: &mut ContractStateLL, f: F)
        requires
            old(store).wf(),
            call_requires(f, (&old(self).value,)),
            forall|w: V| call_ensures(f, (&old(self).value,), w) ==> w.encoding().len()
                <= MAX_ENTRY_SIZE,
        ensures
            final(store).wf(),
            final(self).key == old(self).key,
            final(self).state_entry.key == old(self).state_entry.key,
            final(self).state_entry.current_position == final(self).value.encoding().len(),
            call_ensures(f, (&old(self).value,), final(self).value),
            final(store)@ == stored(
                old(store)@,
                old(self).state_entry.key@,
                final(self).value.encoding(),
            ),
    {
        let value = f(&self.value);
        self.value = value;
        self.state_entry.current_position = 0;
        let bytes = to_bytes(&self.value);
        let _ = self.state_entry.write_all(store, bytes.as_slice());
    }

    /// Replaces the value by what `f` makes of it, and writes the new value
    /// over the start of the entry in the store. Where `f` fails, its error
    /// is returned and nothing is changed.
    pub fn try_modify<E, F: FnOnce(&V) -> Result<V, E>>(
        &mut self,
        store: &mut ContractStateLL,
        f: F,
    ) -> (r: Result<(), E>)
        requires
            old(store).wf(),
            call_requires(f, (&old(self).value,)),
            forall|w: V|
                call_ensures(f, (&old(self).value,), Ok::<V, E>(w)) ==> w.encoding().len()
                    <= MAX_ENTRY_SIZE,
        ensures
            final(store).wf(),
            final(self).key == old(self).key,
            final(self).state_entry.key == old(self).state_entry.key,
            match r {
                Ok(_) => call_ensures(f, (&old(self).value,), Ok::<V, E>(final(self).value))
                    && final(self).state_entry.current_position
                    == final(self).value.encoding().len() && final(store)@ == stored(
                    old(store)@,
                    old(self).state_entry.key@,
                    final(self).value.encoding(),
                ),
                Err(e) => call_ensures(f, (&old(self).value,), Err::<V, E>(e)) && *final(self)
                    == *old(self) && *final(store) == *old(store),
            },
    {
        match f(&self.value) {
            Ok(value) => {
                self.value = value;
                self.state_entry.current_position = 0;
                let bytes = to_bytes(&self.value);
                let _ = self.state_entry.write_all(store, bytes.as_slice());
                Ok(())
            },
            Err(e) => Err(e),
        }
    }
}

impl<K: Serial, V: Serial> Entry<K, V> {
    /// Writes `default` to the entry if it is vacant, and does nothing if
    /// it is occupied.
    pub fn or_insert(self, store: &mut ContractStateLL, default: V)
        requires
            old(store).wf(),
            self matches Entry::Vacant(vac) ==> vac.state_entry.current_position
                + default.encoding().len() <= MAX_ENTRY_SIZE,
        ensures
            final(store).wf(),
            match self {
                Entry::Vacant(vac) => final(store)@ == old(store)@.insert(
                    vac.state_entry.key@,
                    overwritten(
                        content(old(store)@, vac.state_entry.key@),
                        vac.state_entry.current_position as int,
                        default.encoding(),
                    ),
                ),
                Entry::Occupied(_) => *final(store) == *old(store),
            },
    {
        match self {
            Entry::Vacant(vac) => vac.insert(store, default),
            Entry::Occupied(_) => {},
        }
    }

    /// Modifies the value with `f` if the entry is occupied, as
    /// `try_modify` does, and returns the entry. Where `f` fails, its error
    /// is returned and nothing is changed.
    pub fn and_try_modify<E, F: FnOnce(&V) -> Result<V, E>>(
        self,
        store: &mut ContractStateLL,
        f: F,
    ) -> (r: Result<Entry<K, V>, E>)
        requires
            old(store).wf(),
            self matches Entry::Occupied(occ) ==> call_requires(f, (&occ.value,)) && forall|w: V|
                call_ensures(f, (&occ.value,), Ok::<V, E>(w)) ==> w.encoding().len()
                    <= MAX_ENTRY_SIZE,
        ensures
            final(store).wf(),
            match self {
                Entry::Vacant(_) => r == Ok::<Entry<K, V>, E>(self) && *final(store) == *old(store),
                Entry::Occupied(occ) => match r {
                    Ok(Entry::Occupied(after)) => after.key == occ.key && after.state_entry.key
                        == occ.state_entry.key && call_ensures(
                        f,
                        (&occ.value,),
                        Ok::<V, E>(after.value),
                    ) && final(store)@ == stored(
                        old(store)@,
                        occ.state_entry.key@,
                        after.value.encoding(),
                    ),
                    Ok(Entry::Vacant(_)) => false,
                    Err(e) => call_ensures(f, (&occ.value,), Err::<V, E>(e)) && *final(store)
                        == *old(store),
                },
            },
    {
        match self {
            Entry::Vacant(vac) => Ok(Entry::Vacant(vac)),
            Entry::Occupied(mut occ) => match occ.try_modify(store, f) {
                Ok(_) => Ok(Entry::Occupied(occ)),
                Err(e) => Err(e),
            },
        }
    }

    /// Modifies the value with `f` if the entry is occupied, as `modify`
    /// does, and returns the entry.
    pub fn and_modify<F: FnOnce(&V) -> V>(self, store: &mut ContractStateLL, f: F) -> (r: Entry<
        K,
        V,
    >)
        requires
            old(store).wf(),
            self matches Entry::Occupied(occ) ==> call_requires(f, (&occ.value,)) && forall|w: V|
                call_ensures(f, (&occ.value,), w) ==> w.encoding().len() <= MAX_ENTRY_SIZE,
        ensures
            final(store).wf(),
            match self {
                Entry::Vacant(_) => r == self && *final(store) == *old(store),
                Entry::Occupied(occ) => r matches Entry::Occupied(after) && after.key == occ.key
                    && after.state_entry.key == occ.state_entry.key && call_ensures(
                    f,
                    (&occ.value,),
                    after.value,
                ) && final(store)@ == stored(
                    old(store)@,
                    occ.state_entry.key@,
                    after.value.encoding(),
                ),
            },
    {
        match self {
            Entry::Vacant(vac) => Entry::Vacant(vac),
            Entry::Occupied(mut occ) => {
                occ.modify(store, f);
                Entry::Occupied(occ)
            },
        }
    }
}

impl<K: Serial, V: Serial + Default> Entry<K, V> {
    /// Writes the default value of `V` to the entry if it is vacant, and
    /// does nothing if it is occupied.
    pub fn or_default(self, store: &mut ContractStateLL)
        requires
            old(store).wf(),
            self matches Entry::Vacant(vac) ==> forall|d: V|
                call_ensures(V::default, (), d) ==> vac.state_entry.current_position
                    + d.encoding().len() <= MAX_ENTRY_SIZE,
        ensures
            final(store).wf(),
            match self {
                Entry::Vacant(vac) => exists|d: V|
                    call_ensures(V::default, (), d) && final(store)@ == old(store)@.insert(
                        vac.state_entry.key@,
                        overwritten(
                            content(old(store)@, vac.state_entry.key@),
                            vac.state_entry.current_position as int,
                            d.encoding(),
                        ),
                    ),
                Entry::Occupied(_) => *final(store) == *old(store),
            },
    {
        match self {
            Entry::Vacant(vac) => {
                let d = V::default();
                vac.insert(store, d)
            },
            Entry::Occupied(_) => {},
        }
    }
}

} // verus!
