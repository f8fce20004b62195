use contract_state::allocator::Allocator;
use contract_state::codec::{from_bytes_ctx, to_bytes, ParseError, ParseResult};
use contract_state::map::StateMap;
use contract_state::set::StateSet;
use contract_state::state_box::StateBox;
use contract_state::store::ContractStateLL;

fn map_items(map: &StateMap<u64, u64>, store: &ContractStateLL) -> Vec<ParseResult<(u64, u64)>> {
    let mut it = map.iter(store);
    let mut out = Vec::new();
    while let Some(item) = it.next() {
        out.push(item);
    }
    out
}

#[test]
fn map_from_allocation_to_clear() {
    let mut alloc = Allocator::open(ContractStateLL::open());
    let mut map: StateMap<u64, u64> = alloc.new_map();
    assert_eq!(map.prefix, 2);
    assert_eq!(map.insert(&mut alloc.state_ll, 1, 100), None);
    assert_eq!(map.insert(&mut alloc.state_ll, 2, 200), None);
    assert_eq!(map.get(&alloc.state_ll, &1), Some(Ok(100)));
    assert_eq!(map_items(&map, &alloc.state_ll), vec![Ok((1, 100)), Ok((2, 200))]);
    assert_eq!(map.remove(&mut alloc.state_ll, &1), Some(Ok(100)));
    assert!(!map.is_empty(&alloc.state_ll));
    map.clear(&mut alloc.state_ll);
    assert!(map.is_empty(&alloc.state_ll));
}

#[test]
fn set_from_allocation_to_removal() {
    let mut alloc = Allocator::open(ContractStateLL::open());
    let _first: StateMap<u64, u64> = alloc.new_map();
    let mut set: StateSet<u8> = alloc.new_set();
    assert_eq!(set.prefix, 3);
    assert!(set.insert(&mut alloc.state_ll, 5));
    assert!(!set.insert(&mut alloc.state_ll, 5));
    assert!(set.contains(&alloc.state_ll, &5));
    assert!(set.remove(&mut alloc.state_ll, &5));
    assert!(!set.contains(&alloc.state_ll, &5));
}

#[test]
fn map_insert_returns_the_prior_value() {
    let mut store = ContractStateLL::open();
    let mut map: StateMap<u8, u32> = StateMap::open(7);
    assert_eq!(map.insert(&mut store, 1, 10), None);
    assert_eq!(map.insert(&mut store, 1, 11), Some(Ok(10)));
    assert_eq!(map.get(&store, &1), Some(Ok(11)));
    assert_eq!(map.get(&store, &2), None);
}

#[test]
fn map_get_does_not_depend_on_insertion_order() {
    let mut first = ContractStateLL::open();
    let mut second = ContractStateLL::open();
    let mut map: StateMap<u64, u64> = StateMap::open(2);
    for (k, v) in [(3u64, 30u64), (1, 10), (2, 20)] {
        map.insert(&mut first, k, v);
    }
    for (k, v) in [(2u64, 20u64), (3, 30), (1, 10)] {
        map.insert(&mut second, k, v);
    }
    for (k, v) in [(1u64, 10u64), (2, 20), (3, 30)] {
        assert_eq!(map.get(&first, &k), Some(Ok(v)));
        assert_eq!(map.get(&second, &k), Some(Ok(v)));
    }
    assert_eq!(map_items(&map, &first), map_items(&map, &second));
}

#[test]
fn map_iterates_in_byte_order_of_encoded_keys() {
    let mut store = ContractStateLL::open();
    let mut map: StateMap<u64, u64> = StateMap::open(2);
    // 256 is written as 00 01 .., 1 as 01 00 ..: in byte order 256 comes first.
    for k in [1u64, 256, 2, 255] {
        map.insert(&mut store, k, k + 1000);
    }
    assert_eq!(
        map_items(&map, &store),
        vec![Ok((256, 1256)), Ok((1, 1001)), Ok((2, 1002)), Ok((255, 1255))]
    );
}

#[test]
fn map_leaves_other_prefixes_alone() {
    let mut store = ContractStateLL::open();
    let mut a: StateMap<u64, u64> = StateMap::open(2);
    let mut b: StateMap<u64, u64> = StateMap::open(3);
    a.insert(&mut store, 1, 10);
    b.insert(&mut store, 1, 20);
    assert_eq!(a.get(&store, &1), Some(Ok(10)));
    assert_eq!(b.get(&store, &1), Some(Ok(20)));
    a.clear(&mut store);
    assert!(a.is_empty(&store));
    assert!(!b.is_empty(&store));
    assert_eq!(b.get(&store, &1), Some(Ok(20)));
}

#[test]
fn map_reports_a_value_that_does_not_decode() {
    let mut store = ContractStateLL::open();
    let mut narrow: StateMap<u8, u8> = StateMap::open(2);
    narrow.insert(&mut store, 1, 9);
    let mut wide: StateMap<u8, u64> = StateMap::open(2);
    assert_eq!(wide.get(&store, &1), Some(Err(ParseError {})));
    let mut it = wide.iter(&store);
    assert_eq!(it.next(), Some(Err(ParseError {})));
    assert_eq!(it.next(), None);
    assert!(wide.entry(&mut store, 1).is_err());
    assert_eq!(wide.remove(&mut store, &1), Some(Err(ParseError {})));
    assert_eq!(wide.get(&store, &1), None);
}

#[test]
fn map_iteration_goes_on_behind_a_failure() {
    let mut store = ContractStateLL::open();
    let mut narrow: StateMap<u8, u8> = StateMap::open(2);
    narrow.insert(&mut store, 1, 9);
    let mut wide: StateMap<u8, u32> = StateMap::open(2);
    wide.insert(&mut store, 2, 77);
    let mut it = wide.iter(&store);
    assert_eq!(it.next(), Some(Err(ParseError {})));
    assert_eq!(it.next(), Some(Ok((2, 77))));
    assert_eq!(it.next(), None);
}

#[test]
fn set_iterates_in_byte_order() {
    let mut store = ContractStateLL::open();
    let mut set: StateSet<u8> = StateSet::open(4);
    for x in [9u8, 3, 200, 3] {
        set.insert(&mut store, x);
    }
    let mut it = set.iter(&store);
    let mut seen = Vec::new();
    while let Some(x) = it.next() {
        seen.push(x);
    }
    assert_eq!(seen, vec![Ok(3), Ok(9), Ok(200)]);
}

#[test]
fn set_remove_of_an_absent_element_changes_nothing() {
    let mut store = ContractStateLL::open();
    let mut set: StateSet<u64> = StateSet::open(4);
    set.insert(&mut store, 1);
    assert!(!set.remove(&mut store, &2));
    assert!(set.contains(&store, &1));
}

#[test]
fn box_holds_what_was_set() {
    let mut alloc = Allocator::open(ContractStateLL::open());
    let mut b: StateBox<u64> = alloc.new_box(5);
    assert_eq!(b.prefix, 2);
    assert_eq!(b.get_copy(&alloc.state_ll), Some(Ok(5)));
    b.set(&mut alloc.state_ll, 6);
    assert_eq!(b.get_copy(&alloc.state_ll), Some(Ok(6)));
}

#[test]
fn box_that_was_never_filled_is_empty() {
    let mut store = ContractStateLL::open();
    let mut b: StateBox<u64> = from_bytes_ctx(&store, to_bytes(&9u64)).unwrap();
    assert_eq!(b.prefix, 9);
    assert_eq!(b.get_copy(&store), None);
    assert_eq!(b.update(&mut store, |v: &u64| *v + 1), None);
    assert_eq!(b.get_copy(&store), None);
    b.set(&mut store, 1);
    assert_eq!(b.update(&mut store, |v: &u64| *v + 1), Some(Ok(())));
    assert_eq!(b.get_copy(&store), Some(Ok(2)));
}

#[test]
fn box_update_reports_bytes_that_do_not_decode() {
    let mut store = ContractStateLL::open();
    let _narrow: StateBox<u8> = StateBox::new(1, &mut store, 5);
    let mut wide: StateBox<u64> = StateBox::open_at(5);
    assert_eq!(wide.update(&mut store, |v: &u64| *v + 1), Some(Err(ParseError {})));
    assert_eq!(wide.get_copy(&store), Some(Err(ParseError {})));
}

#[test]
fn nested_collections_are_stored_as_their_prefix() {
    let mut alloc = Allocator::open(ContractStateLL::open());
    let mut outer: StateMap<u8, StateMap<u8, u64>> = alloc.new_map();
    let mut inner: StateMap<u8, u64> = alloc.new_map();
    inner.insert(&mut alloc.state_ll, 1, 11);
    assert_eq!(to_bytes(&inner), vec![3, 0, 0, 0, 0, 0, 0, 0]);
    outer.insert(&mut alloc.state_ll, 7, inner);
    let again = outer.get(&alloc.state_ll, &7).unwrap().unwrap();
    assert_eq!(again.prefix, 3);
    assert_eq!(again.get(&alloc.state_ll, &1), Some(Ok(11)));
}

#[test]
fn linked_boxes() {
    let mut alloc = Allocator::open(ContractStateLL::open());
    let tail: StateBox<u64> = alloc.new_box(42);
    let head: StateBox<StateBox<u64>> = alloc.new_box(tail);
    let found = head.get_copy(&alloc.state_ll).unwrap().unwrap();
    assert_eq!(found.prefix, 2);
    assert_eq!(found.get_copy(&alloc.state_ll), Some(Ok(42)));
}

#[test]
fn box_gives_the_same_copy_again() {
    let mut store = ContractStateLL::open();
    store.put(&to_bytes(&8u64), vec![1, 2, 3, 4, 5, 6, 7, 8, 9, 10]);
    let mut b: StateBox<u32> = StateBox::open_at(8);
    b.set(&mut store, 0x0a0b_0c0d);
    assert_eq!(b.get_copy(&store), Some(Ok(0x0a0b_0c0d)));
    assert_eq!(b.get_copy(&store), Some(Ok(0x0a0b_0c0d)));
    assert_eq!(store.data(&to_bytes(&8u64)), Some(&vec![13, 12, 11, 10, 5, 6, 7, 8, 9, 10]));
}

#[test]
fn box_read_back_from_its_bytes_holds_the_value() {
    let mut alloc = Allocator::open(ContractStateLL::open());
    let b: StateBox<u64> = alloc.new_box(77);
    let mut bytes = to_bytes(&b);
    assert_eq!(bytes.len(), 8);
    bytes.extend([1, 2, 3]);
    let before = alloc.state_ll.data(&[0; 8]).cloned();
    let again: StateBox<u64> = from_bytes_ctx(&alloc.state_ll, bytes).unwrap();
    assert_eq!(again.prefix, b.prefix);
    assert_eq!(again.get_copy(&alloc.state_ll), Some(Ok(77)));
    assert_eq!(alloc.state_ll.data(&[0; 8]).cloned(), before);
}

#[test]
fn map_keeps_a_value_through_writes_to_other_keys() {
    let mut store = ContractStateLL::open();
    let mut map: StateMap<u64, u64> = StateMap::open(2);
    map.insert(&mut store, 9, 1);
    map.insert(&mut store, 5, 50);
    map.insert(&mut store, 9, 2);
    map.insert(&mut store, 6, 60);
    map.remove(&mut store, &9);
    map.remove(&mut store, &7);
    assert_eq!(map.get(&store, &5), Some(Ok(50)));
    assert_eq!(map.get(&store, &9), None);
}

#[test]
fn two_maps_filled_in_different_orders_answer_alike() {
    let mut store = ContractStateLL::open();
    let mut one: StateMap<u8, u32> = StateMap::open(2);
    let mut other: StateMap<u8, u32> = StateMap::open(3);
    let pairs = [(4u8, 40u32), (1, 10), (3, 30), (2, 20)];
    for (k, v) in pairs {
        one.insert(&mut store, k, v);
    }
    for (k, v) in [pairs[2], pairs[0], pairs[3], pairs[1]] {
        other.insert(&mut store, k, v);
    }
    for k in 0..=u8::MAX {
        assert_eq!(one.get(&store, &k), other.get(&store, &k));
    }
    for (k, v) in pairs {
        assert_eq!(one.get(&store, &k), Some(Ok(v)));
    }
}

#[test]
fn map_insert_returns_what_was_stored_before() {
    let mut store = ContractStateLL::open();
    let mut map: StateMap<u8, u64> = StateMap::open(2);
    assert_eq!(map.get(&store, &1), None);
    assert_eq!(map.insert(&mut store, 1, 5), None);
    assert_eq!(map.get(&store, &1), Some(Ok(5)));
    assert_eq!(map.insert(&mut store, 1, 6), Some(Ok(5)));
    assert_eq!(map.get(&store, &1), Some(Ok(6)));
}
