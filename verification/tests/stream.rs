use contract_state::codec::ParseError;
use contract_state::entry_raw::{EntryRaw, OccupiedEntryRaw, VacantEntryRaw};
use contract_state::store::ContractStateLL;
use contract_state::stream::{SeekFrom, StateEntry};

fn entry_with(store: &mut ContractStateLL, key: &[u8], data: &[u8]) -> StateEntry {
    store.put(key, data.to_vec());
    store.lookup(key).unwrap()
}

#[test]
fn seek_from_start() {
    let mut store = ContractStateLL::open();
    let mut e = entry_with(&mut store, b"k", &[1, 2, 3]);
    assert_eq!(e.seek(&store, SeekFrom::Start(2)), Ok(2));
    assert_eq!(e.current_position, 2);
    assert_eq!(e.seek(&store, SeekFrom::Start(10)), Ok(10));
    assert_eq!(e.seek(&store, SeekFrom::Start(u32::MAX as u64)), Ok(u32::MAX as u64));
    assert_eq!(e.seek(&store, SeekFrom::Start(u32::MAX as u64 + 1)), Err(()));
    assert_eq!(e.current_position, u32::MAX);
}

#[test]
fn seek_from_current() {
    let mut store = ContractStateLL::open();
    let mut e = entry_with(&mut store, b"k", &[1, 2, 3]);
    assert_eq!(e.seek(&store, SeekFrom::Current(2)), Ok(2));
    assert_eq!(e.seek(&store, SeekFrom::Current(-1)), Ok(1));
    assert_eq!(e.seek(&store, SeekFrom::Current(-2)), Err(()));
    assert_eq!(e.current_position, 1);
    assert_eq!(e.seek(&store, SeekFrom::Current(i64::MIN)), Err(()));
    assert_eq!(e.seek(&store, SeekFrom::Current(u32::MAX as i64)), Err(()));
    assert_eq!(e.seek(&store, SeekFrom::Current(u32::MAX as i64 - 1)), Ok(u32::MAX as u64));
}

#[test]
fn seek_from_end() {
    let mut store = ContractStateLL::open();
    let mut e = entry_with(&mut store, b"k", &[1, 2, 3]);
    assert_eq!(e.seek(&store, SeekFrom::End(-1)), Ok(2));
    assert_eq!(e.seek(&store, SeekFrom::End(-3)), Ok(0));
    assert_eq!(e.seek(&store, SeekFrom::End(-4)), Err(()));
    assert_eq!(e.current_position, 0);
    assert_eq!(e.seek(&store, SeekFrom::End(i64::MIN)), Err(()));
    assert_eq!(e.seek(&store, SeekFrom::Start(1)), Ok(1));
    assert_eq!(e.seek(&store, SeekFrom::End(0)), Ok(3));
    assert_eq!(e.current_position, 3);
    assert_eq!(e.seek(&store, SeekFrom::End(4)), Ok(7));
    assert_eq!(e.current_position, 7);
    assert_eq!(e.seek(&store, SeekFrom::End(u32::MAX as i64 - 3)), Ok(u32::MAX as u64));
    assert_eq!(e.seek(&store, SeekFrom::End(u32::MAX as i64 - 2)), Err(()));
    assert_eq!(e.seek(&store, SeekFrom::End(i64::MAX)), Err(()));
    assert_eq!(e.current_position, u32::MAX);
    assert_eq!(e.size(&store), 3);
}

#[test]
fn read_is_short_at_the_end() {
    let mut store = ContractStateLL::open();
    let mut e = entry_with(&mut store, b"k", &[1, 2, 3]);
    let mut buf = vec![9u8; 2];
    assert_eq!(e.read(&store, &mut buf), Ok(2));
    assert_eq!(buf, vec![1, 2]);
    assert_eq!(e.read(&store, &mut buf), Ok(1));
    assert_eq!(buf, vec![3, 2]);
    assert_eq!(e.current_position, 3);
    assert_eq!(e.read(&store, &mut buf), Ok(0));
    assert_eq!(buf, vec![3, 2]);
}

#[test]
fn read_behind_the_end_gets_nothing() {
    let mut store = ContractStateLL::open();
    let mut e = entry_with(&mut store, b"k", &[1, 2, 3]);
    e.seek(&store, SeekFrom::Start(7)).unwrap();
    let mut buf = vec![9u8; 2];
    assert_eq!(e.read(&store, &mut buf), Ok(0));
    assert_eq!(e.current_position, 7);
    assert_eq!(buf, vec![9, 9]);
}

#[test]
fn write_grows_the_entry() {
    let mut store = ContractStateLL::open();
    let mut e = entry_with(&mut store, b"k", &[1, 2, 3]);
    e.seek(&store, SeekFrom::Start(2)).unwrap();
    assert_eq!(e.write(&mut store, &[7, 8, 9]), Ok(3));
    assert_eq!(e.current_position, 5);
    assert_eq!(store.data(b"k"), Some(&vec![1, 2, 7, 8, 9]));
    assert_eq!(e.size(&store), 5);
}

#[test]
fn write_behind_the_end_fills_the_gap_with_zeros() {
    let mut store = ContractStateLL::open();
    let mut e = entry_with(&mut store, b"k", &[1]);
    e.seek(&store, SeekFrom::Start(3)).unwrap();
    assert_eq!(e.write_all(&mut store, &[5]), Ok(()));
    assert_eq!(store.data(b"k"), Some(&vec![1, 0, 0, 5]));
}

#[test]
fn write_inside_keeps_the_tail() {
    let mut store = ContractStateLL::open();
    let mut e = entry_with(&mut store, b"k", &[1, 2, 3, 4]);
    assert_eq!(e.write(&mut store, &[9]), Ok(1));
    assert_eq!(store.data(b"k"), Some(&vec![9, 2, 3, 4]));
}

#[test]
fn write_that_cannot_be_addressed_is_rejected() {
    let mut store = ContractStateLL::open();
    let mut e = entry_with(&mut store, b"k", &[1, 2, 3]);
    e.seek(&store, SeekFrom::Start(u32::MAX as u64)).unwrap();
    assert_eq!(e.write(&mut store, &[1]), Err(()));
    assert_eq!(e.write_all(&mut store, &[1]), Err(()));
    assert_eq!(e.current_position, u32::MAX);
    assert_eq!(store.data(b"k"), Some(&vec![1, 2, 3]));
    assert_eq!(e.write(&mut store, &[]), Ok(0));
}

#[test]
fn first_write_creates_the_entry() {
    let mut store = ContractStateLL::open();
    let mut e = StateEntry::open(b"new".to_vec());
    assert_eq!(e.size(&store), 0);
    assert_eq!(e.read_u8(&store), Err(ParseError {}));
    assert!(store.lookup(b"new").is_none());
    assert_eq!(e.write(&mut store, &[]), Ok(0));
    assert_eq!(store.data(b"new"), Some(&vec![]));
}

#[test]
fn fixed_width_reads() {
    let mut store = ContractStateLL::open();
    let mut e = entry_with(&mut store, b"k", &[7, 1, 0, 0, 0, 2, 0, 0, 0, 0, 0, 0, 0, 9]);
    assert_eq!(e.read_u8(&store), Ok(7));
    assert_eq!(e.read_u32(&store), Ok(1));
    assert_eq!(e.read_u64(&store), Ok(2));
    assert_eq!(e.current_position, 13);
    assert_eq!(e.read_u64(&store), Err(ParseError {}));
    assert_eq!(e.current_position, 14);
    assert_eq!(e.read_u8(&store), Err(ParseError {}));
    assert_eq!(e.current_position, 14);
}

#[test]
fn short_fixed_width_read_moves_past_what_was_there() {
    let mut store = ContractStateLL::open();
    let mut e = entry_with(&mut store, b"k", &[1, 2, 3]);
    assert_eq!(e.read_u32(&store), Err(ParseError {}));
    assert_eq!(e.current_position, 3);
}

#[test]
fn truncate_cuts_and_clamps_the_cursor() {
    let mut store = ContractStateLL::open();
    let mut e = entry_with(&mut store, b"k", &[1, 2, 3, 4]);
    e.seek(&store, SeekFrom::Start(3)).unwrap();
    e.truncate(&mut store, 2);
    assert_eq!(store.data(b"k"), Some(&vec![1, 2]));
    assert_eq!(e.current_position, 2);
    e.truncate(&mut store, 5);
    assert_eq!(store.data(b"k"), Some(&vec![1, 2]));
    assert_eq!(e.current_position, 2);
}

#[test]
fn reserve_grows_without_moving_the_cursor() {
    let mut store = ContractStateLL::open();
    let mut e = entry_with(&mut store, b"k", &[1, 2]);
    e.seek(&store, SeekFrom::Start(1)).unwrap();
    assert!(e.reserve(&mut store, 4));
    assert_eq!(store.data(b"k"), Some(&vec![1, 2, 0, 0]));
    assert_eq!(e.current_position, 1);
    assert!(e.reserve(&mut store, 1));
    assert_eq!(e.size(&store), 4);
}

#[test]
fn get_key_gives_the_key() {
    let mut store = ContractStateLL::open();
    let e = entry_with(&mut store, b"some key", &[]);
    assert_eq!(e.get_key(), b"some key".to_vec());
}

#[test]
fn vacant_insert_creates_and_rewinds() {
    let mut store = ContractStateLL::open();
    let e = match store.entry(b"k") {
        EntryRaw::Vacant(vac) => vac.insert(&mut store, &[4, 5]),
        EntryRaw::Occupied(_) => panic!("the key was not there"),
    };
    assert_eq!(e.current_position, 0);
    assert_eq!(store.data(b"k"), Some(&vec![4, 5]));
}

#[test]
fn looking_at_a_vacant_entry_creates_nothing() {
    let mut store = ContractStateLL::open();
    assert!(matches!(store.entry(b"k"), EntryRaw::Vacant(_)));
    assert!(store.lookup(b"k").is_none());
    assert!(!store.contains(b"k"));
}

#[test]
fn occupied_insert_overwrites_and_rewinds() {
    let mut store = ContractStateLL::open();
    let e = entry_with(&mut store, b"k", &[1, 2, 3]);
    let mut occ = OccupiedEntryRaw::new(e);
    occ.get_mut().current_position = 2;
    assert_eq!(occ.get_ref().current_position, 2);
    occ.insert(&mut store, &[8, 9]);
    assert_eq!(store.data(b"k"), Some(&vec![8, 9, 3]));
    assert_eq!(occ.get().current_position, 0);
}

#[test]
fn or_insert_writes_only_where_vacant() {
    let mut store = ContractStateLL::open();
    let vac = EntryRaw::Vacant(VacantEntryRaw::new(StateEntry::open(b"a".to_vec())));
    let e = vac.or_insert(&mut store, &[1]);
    assert_eq!(e.key, b"a".to_vec());
    assert_eq!(store.data(b"a"), Some(&vec![1]));
    let again = store.entry(b"a");
    assert!(matches!(again, EntryRaw::Occupied(_)));
    again.or_insert(&mut store, &[2]);
    assert_eq!(store.data(b"a"), Some(&vec![1]));
}

#[test]
fn seek_from_the_end_of_a_new_entry() {
    let mut store = ContractStateLL::open();
    let mut e = match store.entry(b"k") {
        EntryRaw::Vacant(vac) => vac.insert(&mut store, &[1, 2, 3, 4]),
        EntryRaw::Occupied(_) => panic!("the key was not there"),
    };
    assert_eq!(e.current_position, 0);
    assert_eq!(e.seek(&store, SeekFrom::End(0)), Ok(4));
    assert_eq!(e.current_position, 4);
    assert_eq!(e.seek(&store, SeekFrom::End(-4)), Ok(0));
    assert_eq!(e.seek(&store, SeekFrom::End(-5)), Err(()));
    assert_eq!(store.data(b"k"), Some(&vec![1, 2, 3, 4]));
}
