use contract_state::byte_order::{has_prefix, key_less, same_bytes};
use contract_state::store::ContractStateLL;

fn walk(store: &ContractStateLL, prefix: &[u8]) -> Vec<Vec<u8>> {
    let mut it = store.iterator(prefix);
    let mut out = Vec::new();
    while let Some(e) = it.next() {
        assert_eq!(e.current_position, 0);
        out.push(e.key);
    }
    out
}

#[test]
fn byte_order_of_keys() {
    assert!(key_less(&[], &[0]));
    assert!(key_less(&[1], &[1, 0]));
    assert!(key_less(&[1, 255], &[2]));
    assert!(!key_less(&[2], &[1, 255]));
    assert!(!key_less(&[3, 4], &[3, 4]));
    assert!(!key_less(&[], &[]));
}

#[test]
fn prefixes_and_equal_keys() {
    assert!(has_prefix(&[1, 2, 3], &[1, 2]));
    assert!(has_prefix(&[1, 2], &[1, 2]));
    assert!(has_prefix(&[1, 2], &[]));
    assert!(!has_prefix(&[1], &[1, 2]));
    assert!(!has_prefix(&[1, 3], &[1, 2]));
    assert!(same_bytes(&[1, 2], &[1, 2]));
    assert!(!same_bytes(&[1, 2], &[1, 3]));
    assert!(!same_bytes(&[1, 2], &[1]));
}

#[test]
fn a_new_store_is_empty() {
    let store = ContractStateLL::open();
    assert!(store.lookup(&[]).is_none());
    assert_eq!(walk(&store, &[]), Vec::<Vec<u8>>::new());
}

#[test]
fn put_replaces_what_was_there() {
    let mut store = ContractStateLL::open();
    store.put(&[1], vec![10]);
    store.put(&[1], vec![11, 12]);
    assert_eq!(store.data(&[1]), Some(&vec![11, 12]));
    assert_eq!(store.data(&[2]), None);
    assert_eq!(walk(&store, &[]), vec![vec![1]]);
}

#[test]
fn the_walk_is_in_byte_order_whatever_the_order_of_insertion() {
    let keys: [&[u8]; 6] = [&[2, 1], &[1], &[2], &[1, 0], &[], &[1, 255]];
    let mut store = ContractStateLL::open();
    for k in keys {
        store.put(k, vec![]);
    }
    let mut back = ContractStateLL::open();
    for k in keys.iter().rev() {
        back.put(k, vec![]);
    }
    let expected: Vec<Vec<u8>> =
        vec![vec![], vec![1], vec![1, 0], vec![1, 255], vec![2], vec![2, 1]];
    assert_eq!(walk(&store, &[]), expected);
    assert_eq!(walk(&back, &[]), expected);
}

#[test]
fn the_walk_stays_under_its_prefix() {
    let mut store = ContractStateLL::open();
    for k in [vec![1u8], vec![2], vec![2, 0], vec![2, 9, 9], vec![3], vec![20]] {
        store.put(&k, vec![]);
    }
    assert_eq!(walk(&store, &[2]), vec![vec![2], vec![2, 0], vec![2, 9, 9]]);
    assert_eq!(walk(&store, &[2, 9]), vec![vec![2, 9, 9]]);
    assert_eq!(walk(&store, &[4]), Vec::<Vec<u8>>::new());
}

#[test]
fn delete_entry_says_whether_it_was_there() {
    let mut store = ContractStateLL::open();
    store.put(&[1], vec![5]);
    let e = store.lookup(&[1]).unwrap();
    let stale = store.lookup(&[1]).unwrap();
    assert!(store.delete_entry(e));
    assert!(!store.delete_entry(stale));
    assert!(store.lookup(&[1]).is_none());
}

#[test]
fn delete_prefix_exact_deletes_one_key() {
    let mut store = ContractStateLL::open();
    store.put(&[1], vec![]);
    store.put(&[1, 2], vec![]);
    assert!(store.delete_prefix(&[1], true));
    assert!(!store.delete_prefix(&[1], true));
    assert_eq!(walk(&store, &[]), vec![vec![1, 2]]);
}

#[test]
fn delete_prefix_deletes_the_subtree() {
    let mut store = ContractStateLL::open();
    for k in [vec![1u8], vec![1, 2], vec![1, 2, 3], vec![2], vec![0, 1]] {
        store.put(&k, vec![]);
    }
    assert!(store.delete_prefix(&[1], false));
    assert_eq!(walk(&store, &[]), vec![vec![0, 1], vec![2]]);
    assert!(!store.delete_prefix(&[1], false));
    assert!(store.delete_prefix(&[], false));
    assert_eq!(walk(&store, &[]), Vec::<Vec<u8>>::new());
}

#[test]
fn remove_takes_one_key_out() {
    let mut store = ContractStateLL::open();
    store.put(&[1], vec![1]);
    store.put(&[2], vec![2]);
    assert!(store.remove(&[1]));
    assert!(!store.remove(&[1]));
    assert!(store.remove_prefix(&[2]));
    assert!(!store.remove_prefix(&[2]));
    assert!(!store.contains(&[2]));
}
