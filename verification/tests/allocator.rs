use contract_state::allocator::Allocator;
use contract_state::codec::{to_bytes, ParseError};
use contract_state::entry::{Entry, OccupiedEntry, VacantEntry};
use contract_state::map::StateMap;
use contract_state::set::StateSet;
use contract_state::state_box::{load_value, store_value, StateBox};
use contract_state::store::ContractStateLL;
use contract_state::stream::StateEntry;

#[test]
fn prefixes_start_behind_the_reserved_ones_and_are_distinct() {
    let mut alloc = Allocator::open(ContractStateLL::open());
    assert_eq!(alloc.peek_prefix(), Some(2));
    let mut seen = Vec::new();
    for _ in 0..50 {
        seen.push(alloc.get_and_update_item_prefix());
    }
    assert_eq!(seen, (2..52).collect::<Vec<u64>>());
    for i in 0..seen.len() {
        for j in 0..i {
            assert_ne!(seen[i], seen[j]);
        }
    }
    assert_eq!(alloc.peek_prefix(), Some(52));
}

#[test]
fn every_kind_of_collection_takes_a_prefix() {
    let mut alloc = Allocator::open(ContractStateLL::open());
    let m: StateMap<u8, u8> = alloc.new_map();
    let s: StateSet<u8> = alloc.new_set();
    let b: StateBox<u8> = alloc.new_box(1);
    let m2: StateMap<u64, u64> = alloc.new_map();
    assert_eq!((m.prefix, s.prefix, b.prefix, m2.prefix), (2, 3, 4, 5));
}

#[test]
fn the_counter_persists_across_a_restart() {
    let mut alloc = Allocator::open(ContractStateLL::open());
    assert_eq!(alloc.get_and_update_item_prefix(), 2);
    assert_eq!(alloc.get_and_update_item_prefix(), 3);
    let store = alloc.state_ll;
    let mut again = Allocator::open(store);
    assert_eq!(again.get_and_update_item_prefix(), 4);
}

#[test]
fn the_counter_is_kept_under_the_key_of_prefix_zero() {
    let mut alloc = Allocator::open(ContractStateLL::open());
    alloc.get_and_update_item_prefix();
    assert_eq!(alloc.state_ll.data(&[0; 8]), Some(&vec![3, 0, 0, 0, 0, 0, 0, 0]));
}

#[test]
fn a_counter_that_is_no_number_is_seen() {
    let mut store = ContractStateLL::open();
    store.put(&[0; 8], vec![1, 2, 3]);
    let alloc = Allocator::open(store);
    assert_eq!(alloc.peek_prefix(), None);
}

#[test]
fn the_area_of_single_keys() {
    let mut alloc = Allocator::open(ContractStateLL::open());
    assert_eq!(alloc.get::<u8, u64>(1), None);
    alloc.insert(1u8, 77u64);
    assert_eq!(alloc.get::<u8, u64>(1), Some(Ok(77)));
    alloc.insert(1u8, 78u64);
    assert_eq!(alloc.get::<u8, u64>(1), Some(Ok(78)));
    alloc.insert(2u8, 5u8);
    assert_eq!(alloc.get::<u8, u64>(2), Some(Err(ParseError {})));
    assert_eq!(
        Allocator::prepend_generic_map_key(0x0102u32),
        vec![1, 0, 0, 0, 0, 0, 0, 0, 2, 1, 0, 0]
    );
    let first: StateMap<u8, u64> = alloc.new_map();
    assert_eq!(first.prefix, 2);
    assert!(first.is_empty(&alloc.state_ll));
}

#[test]
fn store_and_load() {
    let mut store = ContractStateLL::open();
    assert_eq!(load_value::<u64>(&[], &store), Err(ParseError {}));
    store_value(&5u64, &[], &mut store);
    assert_eq!(load_value::<u64>(&[], &store), Ok(5));
    store_value(&6u8, &[], &mut store);
    assert_eq!(store.data(&[]), Some(&vec![6, 0, 0, 0, 0, 0, 0, 0]));
    assert_eq!(load_value::<u8>(&[], &store), Ok(6));
}

#[test]
fn entry_of_a_map() {
    let mut store = ContractStateLL::open();
    let mut map: StateMap<u8, u64> = StateMap::open(2);
    match map.entry(&mut store, 1).unwrap() {
        Entry::Vacant(vac) => {
            assert_eq!(*vac.key(), 1);
            vac.insert(&mut store, 10);
        }
        Entry::Occupied(_) => panic!("the key was not there"),
    }
    assert_eq!(map.get(&store, &1), Some(Ok(10)));
    match map.entry(&mut store, 1).unwrap() {
        Entry::Vacant(_) => panic!("the key was there"),
        Entry::Occupied(occ) => {
            assert_eq!(*occ.key(), 1);
            assert_eq!(*occ.get_ref(), 10);
            occ.insert(&mut store, 11);
        }
    }
    assert_eq!(map.get(&store, &1), Some(Ok(11)));
}

#[test]
fn or_insert_keeps_what_is_there() {
    let mut store = ContractStateLL::open();
    let mut map: StateMap<u8, u64> = StateMap::open(2);
    map.entry(&mut store, 1).unwrap().or_insert(&mut store, 5);
    assert_eq!(map.get(&store, &1), Some(Ok(5)));
    map.entry(&mut store, 1).unwrap().or_insert(&mut store, 6);
    assert_eq!(map.get(&store, &1), Some(Ok(5)));
}

#[test]
fn or_default_writes_the_default() {
    let mut store = ContractStateLL::open();
    let mut map: StateMap<u8, u64> = StateMap::open(2);
    map.entry(&mut store, 1).unwrap().or_default(&mut store);
    assert_eq!(map.get(&store, &1), Some(Ok(0)));
    map.insert(&mut store, 1, 9);
    map.entry(&mut store, 1).unwrap().or_default(&mut store);
    assert_eq!(map.get(&store, &1), Some(Ok(9)));
}

#[test]
fn and_modify_changes_only_what_is_there() {
    let mut store = ContractStateLL::open();
    let mut map: StateMap<u8, u64> = StateMap::open(2);
    let e = map.entry(&mut store, 1).unwrap().and_modify(&mut store, |v: &u64| *v + 1);
    assert!(matches!(e, Entry::Vacant(_)));
    assert_eq!(map.get(&store, &1), None);
    e.or_insert(&mut store, 1);
    let e = map.entry(&mut store, 1).unwrap().and_modify(&mut store, |v: &u64| *v + 1);
    match e {
        Entry::Occupied(occ) => assert_eq!(occ.get(), 2),
        Entry::Vacant(_) => panic!("the key was there"),
    }
    assert_eq!(map.get(&store, &1), Some(Ok(2)));
}

#[test]
fn a_failed_modification_writes_nothing() {
    let mut store = ContractStateLL::open();
    let mut map: StateMap<u8, u64> = StateMap::open(2);
    map.insert(&mut store, 1, 10);
    let r = map
        .entry(&mut store, 1)
        .unwrap()
        .and_try_modify(&mut store, |_: &u64| -> Result<u64, &'static str> { Err("no") });
    assert_eq!(r.err(), Some("no"));
    assert_eq!(map.get(&store, &1), Some(Ok(10)));
    let r = map
        .entry(&mut store, 1)
        .unwrap()
        .and_try_modify(&mut store, |v: &u64| -> Result<u64, &'static str> { Ok(*v * 2) });
    assert!(matches!(r, Ok(Entry::Occupied(_))));
    assert_eq!(map.get(&store, &1), Some(Ok(20)));
    let r = map
        .entry(&mut store, 2)
        .unwrap()
        .and_try_modify(&mut store, |_: &u64| -> Result<u64, &'static str> { Err("no") });
    assert!(matches!(r, Ok(Entry::Vacant(_))));
}

#[test]
fn modify_and_try_modify_on_an_occupied_entry() {
    let mut store = ContractStateLL::open();
    store.put(b"k", to_bytes(&1u64));
    let mut occ: OccupiedEntry<u8, u64> =
        OccupiedEntry::new(0, 1, StateEntry::open(b"k".to_vec()));
    occ.modify(&mut store, |v: &u64| *v + 4);
    assert_eq!(*occ.get_ref(), 5);
    assert_eq!(store.data(b"k"), Some(&to_bytes(&5u64)));
    assert_eq!(occ.try_modify(&mut store, |_: &u64| -> Result<u64, u8> { Err(3) }), Err(3));
    assert_eq!(*occ.get_ref(), 5);
    assert_eq!(store.data(b"k"), Some(&to_bytes(&5u64)));
    assert_eq!(occ.try_modify(&mut store, |v: &u64| -> Result<u64, u8> { Ok(*v + 1) }), Ok(()));
    assert_eq!(store.data(b"k"), Some(&to_bytes(&6u64)));
}

#[test]
fn a_vacant_entry_gives_its_key_back() {
    let vac: VacantEntry<u32, u64> = VacantEntry::new(9, StateEntry::open(vec![1]));
    assert_eq!(*vac.key(), 9);
    assert_eq!(vac.into_key(), 9);
}
