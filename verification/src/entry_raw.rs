//! The two states of a key that was looked up: vacant, with nothing kept
//! under it, or occupied.
use vstd::prelude::*;
use crate::store::{ContractStateLL, MAX_ENTRY_SIZE};
use crate::stream::{content, overwritten, StateEntry};

verus! {

/// A key under which the store keeps nothing yet.
pub struct VacantEntryRaw {
    pub state_entry: StateEntry,
}

/// A key under which the store keeps bytes.
pub struct OccupiedEntryRaw {
    pub state_entry: StateEntry,
}

/// A key of the store, vacant or occupied.
pub enum EntryRaw {
    Vacant(VacantEntryRaw),
    Occupied(OccupiedEntryRaw),
}

impl VacantEntryRaw {
    /// The vacant entry of the given stream.
    pub fn new(state_entry: StateEntry) -> (e: VacantEntryRaw)
        ensures
            e.state_entry == state_entry,
    {
        VacantEntryRaw { state_entry }
    }

    /// Writes `value` at the stream's cursor, which creates the entry, and
    /// returns the stream at the start of the entry.
    pub fn insert(self, store: &mut ContractStateLL, value: &[u8]) -> (e: StateEntry)
        requires
            old(store).wf(),
            self.state_entry.current_position + value@.len() <= MAX_ENTRY_SIZE,
        ensures
            final(store).wf(),
            e.key == self.state_entry.key,
            e.current_position == 0,
            final(store)@ == old(store)@.insert(
                self.state_entry.key@,
                overwritten(
                    content(old(store)@, self.state_entry.key@),
                    self.state_entry.current_position as int,
                    value@,
                ),
            ),
    {
        let mut state_entry = self.state_entry;
        let _ = state_entry.write_all(store, value);
        state_entry.current_position = 0;
        state_entry
    }
}

impl OccupiedEntryRaw {
    /// The occupied entry of the given stream.
    pub fn new(state_entry: StateEntry) -> (e: OccupiedEntryRaw)
        ensures
            e.state_entry == state_entry,
    {
        OccupiedEntryRaw { state_entry }
    }

    /// The stream, as it stands.
    pub fn get_ref(&self) -> (e: &StateEntry)
        ensures
            *e == self.state_entry,
    {
        &self.state_entry
    }

    /// The stream, as it stands.
    pub fn get(self) -> (e: StateEntry)
        ensures
            e == self.state_entry,
    {
        self.state_entry
    }

    /// The stream, as it stands, to read or move.
    pub fn get_mut(&mut self) -> (e: &mut StateEntry)
        ensures
            *e == old(self).state_entry,
            final(self).state_entry == *final(e),
    {
        &mut self.state_entry
    }

    /// Writes `value` over the start of the entry and leaves the stream at
    /// the start. Bytes of the entry behind the end of `value` stay.
    pub fn insert(&mut self, store: &mut ContractStateLL, value: &[u8])
        requires
            old(store).wf(),
            value@.len() <= MAX_ENTRY_SIZE,
        ensures
            final(store).wf(),
            final(self).state_entry.key == old(self).state_entry.key,
            final(self).state_entry.current_position == 0,
            final(store)@ == old(store)@.insert(
                old(self).state_entry.key@,
                overwritten(content(old(store)@, old(self).state_entry.key@), 0, value@),
            ),
    {
        self.state_entry.current_position = 0;
        let _ = self.state_entry.write_all(store, value);
        self.state_entry.current_position = 0;
    }
}

impl EntryRaw {
    /// The stream of the entry, after `default` was written to it if it was
    /// vacant.
    pub fn or_insert(self, store: &mut ContractStateLL, default: &[u8]) -> (e: StateEntry)
        requires
            old(store).wf(),
            self matches EntryRaw::Vacant(vac) ==> vac.state_entry.current_position
                + default@.len() <= MAX_ENTRY_SIZE,
        ensures
            final(store).wf(),
            match self {
                EntryRaw::Vacant(vac) => e.key == vac.state_entry.key && e.current_position == 0
                    && final(store)@ == old(store)@.insert(
                    vac.state_entry.key@,
                    overwritten(
                        content(old(store)@, vac.state_entry.key@),
                        vac.state_entry.current_position as int,
                        default@,
                    ),
                ),
                EntryRaw::Occupied(occ) => e == occ.state_entry && *final(store) == *old(store),
            },
    {
        match self {
            EntryRaw::Vacant(vac) => vac.insert(store, default),
            EntryRaw::Occupied(occ) => occ.get(),
        }
    }
}

} // verus!
