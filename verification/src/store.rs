//! The store: a finite map from byte keys to byte strings, kept in the byte
//! order of its keys.
use vstd::prelude::*;
use crate::entry_raw::{EntryRaw, OccupiedEntryRaw, VacantEntryRaw};
use crate::stream::StateEntry;
use crate::byte_order::{
    has_prefix, is_prefix, key_less, lemma_lex_lt_transitive, lemma_lex_lt_trichotomy, lex_lt,
    same_bytes, strictly_increasing,
};

verus! {

/// The largest size an entry can have.
pub const MAX_ENTRY_SIZE: usize = 0xffff_ffff;

/// One key of the store with the bytes kept under it.
struct StoreItem {
    key: Vec<u8>,
    data: Vec<u8>,
}

/// The store that all collections of one contract share.
pub struct ContractStateLL {
    items: Vec<StoreItem>,
}

/// The keys of `items`, in their order.
spec fn keys_of(items: Seq<StoreItem>) -> Seq<Seq<u8>> {
    Seq::new(items.len(), |i: int| items[i].key@)
}

/// The keys among `keys` that begin with `prefix`, in their order.
pub open spec fn select_prefixed(keys: Seq<Seq<u8>>, prefix: Seq<u8>) -> Seq<Seq<u8>>
    decreases keys.len(),
{
    if keys.len() == 0 {
        Seq::empty()
    } else if is_prefix(prefix, keys[0]) {
        seq![keys[0]] + select_prefixed(keys.drop_first(), prefix)
    } else {
        select_prefixed(keys.drop_first(), prefix)
    }
}

/// The map that remains of `m` without the keys that begin with `prefix`.
pub open spec fn without_prefix(m: Map<Seq<u8>, Seq<u8>>, prefix: Seq<u8>) -> Map<
    Seq<u8>,
    Seq<u8>,
> {
    Map::new(|k: Seq<u8>| m.contains_key(k) && !is_prefix(prefix, k), |k: Seq<u8>| m[k])
}

/// Some key of `m` begins with `prefix`.
pub open spec fn any_prefixed(m: Map<Seq<u8>, Seq<u8>>, prefix: Seq<u8>) -> bool {
    exists|k: Seq<u8>| #[trigger] m.contains_key(k) && is_prefix(prefix, k)
}

spec fn holds_at(items: Seq<StoreItem>, i: int, k: Seq<u8>) -> bool {
    0 <= i < items.len() && items[i].key@ == k
}

spec fn index_of(items: Seq<StoreItem>, k: Seq<u8>) -> int {
    choose|i: int| holds_at(items, i, k)
}

spec fn model(items: Seq<StoreItem>) -> Map<Seq<u8>, Seq<u8>> {
    Map::new(
        |k: Seq<u8>| exists|i: int| holds_at(items, i, k),
        |k: Seq<u8>| items[index_of(items, k)].data@,
    )
}

spec fn sizes_fit(items: Seq<StoreItem>) -> bool {
    forall|i: int| 0 <= i < items.len() ==> (#[trigger] items[i]).data@.len() <= MAX_ENTRY_SIZE
}

proof fn lemma_model_at(items: Seq<StoreItem>, i: int)
    requires
        strictly_increasing(keys_of(items)),
        0 <= i < items.len(),
    ensures
        model(items).contains_key(items[i].key@),
        model(items)[items[i].key@] == items[i].data@,
{
    let k = items[i].key@;
    assert(holds_at(items, i, k));
    let j = index_of(items, k);
    assert(holds_at(items, j, k));
    if j != i {
        lemma_lex_lt_trichotomy(k, k);
        if j < i {
            assert(lex_lt(keys_of(items)[j], keys_of(items)[i]));
        } else {
            assert(lex_lt(keys_of(items)[i], keys_of(items)[j]));
        }
    }
}

proof fn lemma_model_absent(items: Seq<StoreItem>, k: Seq<u8>)
    requires
        forall|i: int| 0 <= i < items.len() ==> (#[trigger] items[i]).key@ != k,
    ensures
        !model(items).contains_key(k),
{
    if model(items).contains_key(k) {
        let i = choose|i: int| holds_at(items, i, k);
        assert(holds_at(items, i, k));
        assert(items[i].key@ != k);
    }
}

/// A map that agrees with sorted `items` on every item, and holds no other
/// key, is their model.
proof fn lemma_model_is(items: Seq<StoreItem>, m: Map<Seq<u8>, Seq<u8>>)
    requires
        strictly_increasing(keys_of(items)),
        forall|i: int|
            0 <= i < items.len() ==> m.contains_key((#[trigger] items[i]).key@) && m[items[i].key@]
                == items[i].data@,
        forall|k: Seq<u8>| #[trigger]
            m.contains_key(k) ==> exists|i: int| holds_at(items, i, k),
    ensures
        model(items) == m,
{
    assert forall|k: Seq<u8>| model(items).contains_key(k) implies m.contains_key(k) && m[k]
        == model(items)[k] by {
        let i = choose|i: int| holds_at(items, i, k);
        assert(holds_at(items, i, k));
        lemma_model_at(items, i);
    }
    assert(model(items) =~= m);
}

impl ContractStateLL {
    /// The store as a map from keys to the bytes kept under them.
    pub closed spec fn view(&self) -> Map<Seq<u8>, Seq<u8>> {
        model(self.items@)
    }

    /// The keys of the store in the order in which it keeps them.
    pub closed spec fn ordered_keys(&self) -> Seq<Seq<u8>> {
        keys_of(self.items@)
    }

    /// The store is well formed: its keys are strictly increasing in byte
    /// order and no entry is larger than an entry can be.
    pub closed spec fn wf(&self) -> bool {
        strictly_increasing(keys_of(self.items@)) && sizes_fit(self.items@)
    }

    /// The keys under `prefix`, in the order of the store.
    pub open spec fn keys_under(&self, prefix: Seq<u8>) -> Seq<Seq<u8>> {
        select_prefixed(self.ordered_keys(), prefix)
    }

    /// The ordered keys of a well-formed store are strictly increasing, they
    /// are the keys of its map, and no entry is larger than an entry can be.
    pub proof fn lemma_ordered_keys(&self)
        requires
            self.wf(),
        ensures
            strictly_increasing(self.ordered_keys()),
            forall|k: Seq<u8>| #[trigger]
                self.ordered_keys().contains(k) ==> self@.contains_key(k),
            forall|k: Seq<u8>| #[trigger]
                self@.contains_key(k) ==> self.ordered_keys().contains(k),
            forall|k: Seq<u8>|
                self@.contains_key(k) ==> (#[trigger] self@[k]).len() <= MAX_ENTRY_SIZE,
    {
        let items = self.items@;
        assert forall|k: Seq<u8>| #[trigger]
            self.ordered_keys().contains(k) implies self@.contains_key(k) by {
            let i = choose|i: int|
                0 <= i < self.ordered_keys().len() && self.ordered_keys()[i] == k;
            assert(holds_at(items, i, k));
        }
        assert forall|k: Seq<u8>| #[trigger]
            self@.contains_key(k) implies self.ordered_keys().contains(k) by {
            let i = choose|i: int| holds_at(items, i, k);
            assert(holds_at(items, i, k));
            assert(self.ordered_keys()[i] == k);
        }
        assert forall|k: Seq<u8>| self@.contains_key(k) implies (#[trigger] self@[k]).len()
            <= MAX_ENTRY_SIZE by {
            let i = choose|i: int| holds_at(items, i, k);
            assert(holds_at(items, i, k));
            lemma_model_at(items, i);
        }
    }

    /// An empty store.
    pub fn open() -> (s: ContractStateLL)
        ensures
            s.wf(),
            s@ == Map::<Seq<u8>, Seq<u8>>::empty(),
            s.ordered_keys() == Seq::<Seq<u8>>::empty(),
    {
        let s = ContractStateLL { items: Vec::new() };
        assert(s@ =~= Map::<Seq<u8>, Seq<u8>>::empty()) by {
            assert forall|k: Seq<u8>| !s@.contains_key(k) by {
                lemma_model_absent(s.items@, k);
            }
        }
        assert(s.ordered_keys() =~= Seq::<Seq<u8>>::empty());
        s
    }

    /// The index at which `key` stands or would have to stand, and whether
    /// it stands there, by halving the range in which it can stand.
    fn find(&self, key: &[u8]) -> (r: (usize, bool))
        requires
            self.wf(),
        ensures
            r.0 <= self.items@.len(),
            forall|j: int| 0 <= j < r.0 ==> lex_lt(#[trigger] self.items@[j].key@, key@),
            r.1 ==> r.0 < self.items@.len() && self.items@[r.0 as int].key@ == key@,
            !r.1 ==> forall|j: int|
                r.0 <= j < self.items@.len() ==> lex_lt(key@, #[trigger] self.items@[j].key@),
            r.1 == self@.contains_key(key@),
            r.1 ==> self@[key@] == self.items@[r.0 as int].data@,
    {
        let mut lo: usize = 0;
        let mut hi: usize = self.items.len();
        while lo < hi
            invariant
                self.wf(),
                lo <= hi <= self.items@.len(),
                forall|j: int| 0 <= j < lo ==> lex_lt(#[trigger] self.items@[j].key@, key@),
                forall|j: int|
                    hi <= j < self.items@.len() ==> !lex_lt(#[trigger] self.items@[j].key@, key@),
            decreases hi - lo,
        {
            let mid = lo + (hi - lo) / 2;
            let ghost items = self.items@;
            if key_less(self.items[mid].key.as_slice(), key) {
                assert forall|j: int| 0 <= j < mid + 1 implies lex_lt(
                    #[trigger] items[j].key@,
                    key@,
                ) by {
                    if j < mid {
                        assert(lex_lt(keys_of(items)[j], keys_of(items)[mid as int]));
                        lemma_lex_lt_transitive(items[j].key@, items[mid as int].key@, key@, 0);
                    }
                }
                lo = mid + 1;
            } else {
                assert forall|j: int| mid <= j < items.len() implies !lex_lt(
                    #[trigger] items[j].key@,
                    key@,
                ) by {
                    if j > mid && lex_lt(items[j].key@, key@) {
                        assert(lex_lt(keys_of(items)[mid as int], keys_of(items)[j]));
                        lemma_lex_lt_transitive(items[mid as int].key@, items[j].key@, key@, 0);
                    }
                }
                hi = mid;
            }
        }
        let found = lo < self.items.len() && same_bytes(self.items[lo].key.as_slice(), key);
        proof {
            let items = self.items@;
            if found {
                lemma_model_at(items, lo as int);
            } else {
                assert forall|j: int| 0 <= j < items.len() implies (#[trigger] items[j]).key@
                    != key@ by {
                    lemma_lex_lt_trichotomy(items[j].key@, key@);
                    if lo < j {
                        assert(lex_lt(keys_of(items)[lo as int], keys_of(items)[j]));
                    }
                }
                assert forall|j: int| lo <= j < items.len() implies lex_lt(
                    key@,
                    #[trigger] items[j].key@,
                ) by {
                    lemma_lex_lt_trichotomy(items[j].key@, key@);
                }
                lemma_model_absent(items, key@);
            }
        }
        (lo, found)
    }

    /// Whether the store holds `key`.
    pub fn contains(&self, key: &[u8]) -> (r: bool)
        requires
            self.wf(),
        ensures
            r == self@.contains_key(key@),
    {
        self.find(key).1
    }

    /// The bytes kept under `key`, if the store holds it.
    pub fn data(&self, key: &[u8]) -> (r: Option<&Vec<u8>>)
        requires
            self.wf(),
        ensures
            r is Some == self@.contains_key(key@),
            r matches Some(d) ==> d@ == self@[key@] && d@.len() <= MAX_ENTRY_SIZE,
    {
        let (i, found) = self.find(key);
        if found {
            assert(self.items@[i as int].data@.len() <= MAX_ENTRY_SIZE);
            Some(&self.items[i].data)
        } else {
            None
        }
    }
}

impl ContractStateLL {
    /// Keeps `data` under `key`, in place of what was kept there.
    pub fn put(&mut self, key: &[u8], data: Vec<u8>)
        requires
            old(self).wf(),
            data@.len() <= MAX_ENTRY_SIZE,
        ensures
            final(self).wf(),
            final(self)@ == old(self)@.insert(key@, data@),
    {
        let (i, found) = self.find(key);
        let item = StoreItem { key: vstd::slice::slice_to_vec(key), data };
        let ghost before = self.items@;
        let ghost expected = self@.insert(key@, data@);
        if found {
            self.items.set(i, item);
            proof {
                let after = self.items@;
                assert(keys_of(after) =~= keys_of(before));
                assert forall|j: int| 0 <= j < after.len() implies expected.contains_key(
                    (#[trigger] after[j]).key@,
                ) && expected[after[j].key@] == after[j].data@ by {
                    lemma_model_at(before, j);
                    if j != i {
                        assert(lex_lt(keys_of(before)[j], keys_of(before)[i as int]) || lex_lt(
                            keys_of(before)[i as int],
                            keys_of(before)[j],
                        ));
                        lemma_lex_lt_trichotomy(before[j].key@, key@);
                    }
                }
                assert forall|k: Seq<u8>| #[trigger] expected.contains_key(k) implies exists|
                    j: int,
                | holds_at(after, j, k) by {
                    if k == key@ {
                        assert(holds_at(after, i as int, k));
                    } else {
                        let j = choose|j: int| holds_at(before, j, k);
                        assert(holds_at(before, j, k));
                        assert(holds_at(after, j, k));
                    }
                }
                lemma_model_is(after, expected);
            }
        } else {
            self.items.insert(i, item);
            proof {
                let after = self.items@;
                assert(keys_of(after) =~= keys_of(before).insert(i as int, key@));
                assert forall|a: int, b: int| 0 <= a < b < after.len() implies lex_lt(
                    #[trigger] keys_of(after)[a],
                    #[trigger] keys_of(after)[b],
                ) by {
                    if b < i {
                        assert(lex_lt(keys_of(before)[a], keys_of(before)[b]));
                    } else if b == i {
                        assert(lex_lt(before[a].key@, key@));
                    } else if a < i {
                        assert(lex_lt(keys_of(before)[a], keys_of(before)[b - 1]));
                    } else if a == i {
                        assert(lex_lt(key@, before[b - 1].key@));
                    } else {
                        assert(lex_lt(keys_of(before)[a - 1], keys_of(before)[b - 1]));
                    }
                }
                assert forall|j: int| 0 <= j < after.len() implies expected.contains_key(
                    (#[trigger] after[j]).key@,
                ) && expected[after[j].key@] == after[j].data@ by {
                    if j < i {
                        lemma_model_at(before, j);
                        lemma_lex_lt_trichotomy(before[j].key@, key@);
                    } else if j > i {
                        lemma_model_at(before, j - 1);
                        assert(lex_lt(key@, before[j - 1].key@));
                        lemma_lex_lt_trichotomy(before[j - 1].key@, key@);
                    }
                }
                assert forall|k: Seq<u8>| #[trigger] expected.contains_key(k) implies exists|
                    j: int,
                | holds_at(after, j, k) by {
                    if k == key@ {
                        assert(holds_at(after, i as int, k));
                    } else {
                        let j = choose|j: int| holds_at(before, j, k);
                        assert(holds_at(before, j, k));
                        if j < i {
                            assert(holds_at(after, j, k));
                        } else {
                            assert(holds_at(after, j + 1, k));
                        }
                    }
                }
                lemma_model_is(after, expected);
                assert forall|j: int| 0 <= j < after.len() implies (#[trigger] after[j]).data@.len()
                    <= MAX_ENTRY_SIZE by {
                    if j < i {
                        assert(before[j].data@.len() <= MAX_ENTRY_SIZE);
                    } else if j > i {
                        assert(before[j - 1].data@.len() <= MAX_ENTRY_SIZE);
                    }
                }
            }
        }
    }

    /// Takes out the item at index `i`.
    fn remove_at(&mut self, i: usize)
        requires
            old(self).wf(),
            i < old(self).items@.len(),
        ensures
            final(self).wf(),
            final(self).items@ == old(self).items@.remove(i as int),
            final(self)@ == old(self)@.remove(old(self).items@[i as int].key@),
    {
        let ghost before = self.items@;
        let ghost gone = before[i as int].key@;
        let ghost expected = self@.remove(gone);
        let _ = self.items.remove(i);
        proof {
            let after = self.items@;
            assert(keys_of(after) =~= keys_of(before).remove(i as int));
            assert forall|a: int, b: int| 0 <= a < b < after.len() implies lex_lt(
                #[trigger] keys_of(after)[a],
                #[trigger] keys_of(after)[b],
            ) by {
                let a0 = if a < i { a } else { a + 1 };
                let b0 = if b < i { b } else { b + 1 };
                assert(lex_lt(keys_of(before)[a0], keys_of(before)[b0]));
            }
            assert forall|j: int| 0 <= j < after.len() implies expected.contains_key(
                (#[trigger] after[j]).key@,
            ) && expected[after[j].key@] == after[j].data@ by {
                let j0 = if j < i { j } else { j + 1 };
                lemma_model_at(before, j0);
                assert(lex_lt(keys_of(before)[j0], keys_of(before)[i as int]) || lex_lt(
                    keys_of(before)[i as int],
                    keys_of(before)[j0],
                ));
                lemma_lex_lt_trichotomy(before[j0].key@, gone);
                assert(before[j0].data@.len() <= MAX_ENTRY_SIZE);
            }
            assert forall|k: Seq<u8>| #[trigger] expected.contains_key(k) implies exists|j: int|
                holds_at(after, j, k) by {
                let j = choose|j: int| holds_at(before, j, k);
                assert(holds_at(before, j, k));
                if j < i {
                    assert(holds_at(after, j, k));
                } else {
                    assert(holds_at(after, j - 1, k));
                }
            }
            lemma_model_is(after, expected);
            assert forall|j: int| 0 <= j < after.len() implies (#[trigger] after[j]).data@.len()
                <= MAX_ENTRY_SIZE by {
                let j0 = if j < i { j } else { j + 1 };
                assert(before[j0].data@.len() <= MAX_ENTRY_SIZE);
            }
        }
    }

    /// Takes `key` out of the store. Says whether the store held it.
    pub fn remove(&mut self, key: &[u8]) -> (existed: bool)
        requires
            old(self).wf(),
        ensures
            final(self).wf(),
            existed == old(self)@.contains_key(key@),
            final(self)@ == old(self)@.remove(key@),
    {
        let (i, found) = self.find(key);
        if found {
            self.remove_at(i);
        } else {
            assert(self@.remove(key@) =~= self@);
        }
        found
    }

    /// Takes every key that begins with `prefix` out of the store. Says
    /// whether there was one.
    pub fn remove_prefix(&mut self, prefix: &[u8]) -> (existed: bool)
        requires
            old(self).wf(),
        ensures
            final(self).wf(),
            existed == any_prefixed(old(self)@, prefix@),
            final(self)@ == without_prefix(old(self)@, prefix@),
    {
        let mut existed = false;
        let mut i: usize = 0;
        while i < self.items.len()
            invariant
                self.wf(),
                i <= self.items@.len(),
                forall|j: int| 0 <= j < i ==> !is_prefix(prefix@, (#[trigger] self.items@[j]).key@),
                without_prefix(self@, prefix@) == without_prefix(old(self)@, prefix@),
                existed ==> any_prefixed(old(self)@, prefix@),
                !existed ==> self@ == old(self)@,
            decreases self.items@.len() - i,
        {
            if has_prefix(self.items[i].key.as_slice(), prefix) {
                let ghost before = self@;
                let ghost gone = self.items@[i as int].key@;
                proof {
                    lemma_model_at(self.items@, i as int);
                    if !existed {
                        assert(old(self)@.contains_key(gone));
                    } 
                }
                self.remove_at(i);
                assert(without_prefix(self@, prefix@) =~= without_prefix(before, prefix@));
                existed = true;
            } else {
                i += 1;
            }
        }
        proof {
            let items = self.items@;
            assert forall|k: Seq<u8>| self@.contains_key(k) implies !is_prefix(prefix@, k) by {
                let j = choose|j: int| holds_at(items, j, k);
                assert(holds_at(items, j, k));
            }
            assert(self@ =~= without_prefix(self@, prefix@));
        }
        existed
    }
}

/// The keys selected from `keys` are the keys among them that begin with
/// `prefix`, and they are strictly increasing where `keys` are.
pub proof fn lemma_select_prefixed(keys: Seq<Seq<u8>>, prefix: Seq<u8>)
    ensures
        forall|k: Seq<u8>| #[trigger]
            select_prefixed(keys, prefix).contains(k) ==> keys.contains(k) && is_prefix(prefix, k),
        forall|k: Seq<u8>| #[trigger]
            keys.contains(k) && is_prefix(prefix, k) ==> select_prefixed(keys, prefix).contains(k),
        strictly_increasing(keys) ==> strictly_increasing(select_prefixed(keys, prefix)),
    decreases keys.len(),
{
    let chosen = select_prefixed(keys, prefix);
    if keys.len() > 0 {
        let rest = keys.drop_first();
        let chosen_rest = select_prefixed(rest, prefix);
        lemma_select_prefixed(rest, prefix);
        assert forall|k: Seq<u8>| #[trigger] chosen.contains(k) implies keys.contains(k)
            && is_prefix(prefix, k) by {
            let i = choose|i: int| 0 <= i < chosen.len() && chosen[i] == k;
            if is_prefix(prefix, keys[0]) && i == 0 {
                assert(keys[0] == k);
            } else {
                if is_prefix(prefix, keys[0]) {
                    assert(chosen_rest[i - 1] == k);
                } else {
                    assert(chosen_rest[i] == k);
                }
                assert(chosen_rest.contains(k));
                assert(rest.contains(k));
                let j = choose|j: int| 0 <= j < rest.len() && rest[j] == k;
                assert(keys[j + 1] == k);
            }
        }
        assert forall|k: Seq<u8>| #[trigger]
            keys.contains(k) && is_prefix(prefix, k) implies chosen.contains(k) by {
            let j = choose|j: int| 0 <= j < keys.len() && keys[j] == k;
            if j == 0 {
                assert(chosen[0] == k);
            } else {
                assert(rest[j - 1] == k);
                assert(rest.contains(k));
                assert(chosen_rest.contains(k));
                let i = choose|i: int| 0 <= i < chosen_rest.len() && chosen_rest[i] == k;
                if is_prefix(prefix, keys[0]) {
                    assert(chosen[i + 1] == k);
                } else {
                    assert(chosen[i] == k);
                }
            }
        }
        if strictly_increasing(keys) {
            assert(strictly_increasing(rest)) by {
                assert forall|a: int, b: int| 0 <= a < b < rest.len() implies lex_lt(
                    #[trigger] rest[a],
                    #[trigger] rest[b],
                ) by {
                    assert(lex_lt(keys[a + 1], keys[b + 1]));
                }
            }
            assert forall|a: int, b: int| 0 <= a < b < chosen.len() implies lex_lt(
                #[trigger] chosen[a],
                #[trigger] chosen[b],
            ) by {
                if is_prefix(prefix, keys[0]) {
                    if a == 0 {
                        assert(chosen_rest[b - 1] == chosen[b]);
                        assert(chosen_rest.contains(chosen[b]));
                        assert(rest.contains(chosen[b]));
                        let j = choose|j: int| 0 <= j < rest.len() && rest[j] == chosen[b];
                        assert(lex_lt(keys[0], keys[j + 1]));
                    } else {
                        assert(lex_lt(chosen_rest[a - 1], chosen_rest[b - 1]));
                    }
                } else {
                    assert(lex_lt(chosen_rest[a], chosen_rest[b]));
                }
            }
        }
    }
}

/// A walk over the keys of the store that begin with one prefix, in the
/// order of the store. It holds the store for as long as it lives.
pub struct ContractStateIter<'a> {
    store: &'a ContractStateLL,
    prefix: Vec<u8>,
    pos: usize,
}

impl<'a> ContractStateIter<'a> {
    /// The store that is walked.
    pub closed spec fn store(&self) -> &'a ContractStateLL {
        self.store
    }

    /// The keys still to come, in the order in which they come.
    pub closed spec fn remaining(&self) -> Seq<Seq<u8>> {
        select_prefixed(keys_of(self.store.items@).skip(self.pos as int), self.prefix@)
    }

    /// The walk is over a well-formed store and has not left it.
    pub closed spec fn wf(&self) -> bool {
        self.store.wf() && self.pos <= self.store.items@.len()
    }

    /// The store that is walked.
    pub fn get_store(&self) -> (s: &'a ContractStateLL)
        ensures
            s == self.store(),
    {
        self.store
    }

    /// The store of a well-formed walk is well formed.
    pub proof fn lemma_store_wf(&self)
        requires
            self.wf(),
        ensures
            self.store().wf(),
    {
    }

    /// The stream of the next key, at the start of its entry, or nothing
    /// where no key is left.
    pub fn next(&mut self) -> (r: Option<StateEntry>)
        requires
            old(self).wf(),
        ensures
            final(self).wf(),
            final(self).store() == old(self).store(),
            old(self).remaining().len() == 0 ==> r is None && final(self).remaining()
                == old(self).remaining(),
            old(self).remaining().len() > 0 ==> r is Some && r->Some_0.key@
                == old(self).remaining()[0] && r->Some_0.current_position == 0
                && final(self).remaining() == old(self).remaining().drop_first(),
    {
        let ghost keys = keys_of(self.store.items@);
        while self.pos < self.store.items.len()
            invariant
                self.wf(),
                self.store == old(self).store,
                self.prefix == old(self).prefix,
                keys == keys_of(self.store.items@),
                self.remaining() == old(self).remaining(),
            decreases self.store.items@.len() - self.pos,
        {
            let key = self.store.items[self.pos].key.as_slice();
            let ghost here = keys.skip(self.pos as int);
            assert(here.drop_first() =~= keys.skip(self.pos + 1));
            assert(here[0] == key@);
            if has_prefix(key, self.prefix.as_slice()) {
                let entry = StateEntry::open(vstd::slice::slice_to_vec(key));
                self.pos = self.pos + 1;
                assert(old(self).remaining().drop_first() =~= self.remaining());
                return Some(entry);
            }
            self.pos = self.pos + 1;
        }
        assert(keys.skip(self.pos as int) =~= Seq::<Seq<u8>>::empty());
        None
    }
}

impl ContractStateLL {
    /// A well-formed store keeps under each prefix exactly those of its keys
    /// that begin with it, in strictly increasing byte order.
    pub proof fn lemma_keys_under(&self, prefix: Seq<u8>)
        requires
            self.wf(),
        ensures
            strictly_increasing(self.keys_under(prefix)),
            forall|k: Seq<u8>| #[trigger]
                self.keys_under(prefix).contains(k) ==> self@.contains_key(k) && is_prefix(
                    prefix,
                    k,
                ),
            forall|k: Seq<u8>| #[trigger]
                self@.contains_key(k) && is_prefix(prefix, k) ==> self.keys_under(prefix).contains(
                    k,
                ),
    {
        self.lemma_ordered_keys();
        lemma_select_prefixed(self.ordered_keys(), prefix);
        assert forall|k: Seq<u8>| #[trigger]
            self.keys_under(prefix).contains(k) implies self@.contains_key(k) && is_prefix(
            prefix,
            k,
        ) by {
            assert(self.ordered_keys().contains(k));
        }
        assert forall|k: Seq<u8>| #[trigger]
            self@.contains_key(k) && is_prefix(prefix, k) implies self.keys_under(prefix).contains(
            k,
        ) by {
            assert(self.ordered_keys().contains(k));
        }
    }

    /// The stream of the entry under `key`, at its start, if the store holds
    /// the key.
    pub fn lookup(&self, key: &[u8]) -> (r: Option<StateEntry>)
        requires
            self.wf(),
        ensures
            r is Some == self@.contains_key(key@),
            r matches Some(e) ==> e.key@ == key@ && e.current_position == 0,
    {
        if self.contains(key) {
            Some(StateEntry::open(vstd::slice::slice_to_vec(key)))
        } else {
            None
        }
    }

    /// The entry of `key`: occupied if the store holds the key, vacant if
    /// not. A vacant entry changes nothing in the store until something is
    /// inserted through it.
    pub fn entry(&mut self, key: &[u8]) -> (r: EntryRaw)
        requires
            old(self).wf(),
        ensures
            *final(self) == *old(self),
            r is Occupied == old(self)@.contains_key(key@),
            match r {
                EntryRaw::Vacant(vac) => vac.state_entry.key@ == key@
                    && vac.state_entry.current_position == 0,
                EntryRaw::Occupied(occ) => occ.state_entry.key@ == key@
                    && occ.state_entry.current_position == 0,
            },
    {
        let state_entry = StateEntry::open(vstd::slice::slice_to_vec(key));
        if self.contains(key) {
            EntryRaw::Occupied(OccupiedEntryRaw::new(state_entry))
        } else {
            EntryRaw::Vacant(VacantEntryRaw::new(state_entry))
        }
    }

    /// Deletes the entry of the given stream. Says whether the store held
    /// it.
    pub fn delete_entry(&mut self, entry: StateEntry) -> (existed: bool)
        requires
            old(self).wf(),
        ensures
            final(self).wf(),
            existed == old(self)@.contains_key(entry.key@),
            final(self)@ == old(self)@.remove(entry.key@),
    {
        self.remove(entry.key.as_slice())
    }

    /// Deletes the key `prefix` itself where `exact` is set, and every key
    /// that begins with `prefix` where it is not. Says whether anything was
    /// deleted.
    pub fn delete_prefix(&mut self, prefix: &[u8], exact: bool) -> (existed: bool)
        requires
            old(self).wf(),
        ensures
            final(self).wf(),
            exact ==> existed == old(self)@.contains_key(prefix@) && final(self)@
                == old(self)@.remove(prefix@),
            !exact ==> existed == any_prefixed(old(self)@, prefix@) && final(self)@
                == without_prefix(old(self)@, prefix@),
    {
        if exact {
            self.remove(prefix)
        } else {
            self.remove_prefix(prefix)
        }
    }

    /// A walk over the keys that begin with `prefix`, in byte order.
    pub fn iterator(&self, prefix: &[u8]) -> (it: ContractStateIter<'_>)
        requires
            self.wf(),
        ensures
            it.wf(),
            it.store() == self,
            it.remaining() == self.keys_under(prefix@),
    {
        let prefix = vstd::slice::slice_to_vec(prefix);
        let it = ContractStateIter { store: self, prefix, pos: 0 };
        assert(keys_of(self.items@).skip(0) =~= keys_of(self.items@));
        it
    }
}

} // verus!
