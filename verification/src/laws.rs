//! What holds of the collections whatever the store holds.
use vstd::prelude::*;
use vstd::bytes::{spec_u64_to_le_bytes, lemma_auto_spec_u64_to_from_le_bytes};
use crate::allocator::{
    after_allocation, can_allocate, counter_key, next_prefix, GENERIC_MAP_PREFIX,
    INITIAL_NEXT_COLLECTION_PREFIX, NEXT_COLLECTION_PREFIX_KEY,
};
use crate::byte_order::{
    is_prefix, lemma_lex_lt_common_prefix, lex_lt, strictly_increasing,
};
use crate::codec::{
    decoded, decoded_ctx, round_trips, DeserialStateCtx, ParseError, Serial, Serialize,
};
use crate::map::{item_at, item_key, sub_key, value_at};
use crate::state_box::{lemma_box_round_trip, StateBox};
use crate::store::{any_prefixed, without_prefix, ContractStateLL};
use crate::stream::{content, overwritten, stored};

verus! {

/// Decoding the encoding of a value gives the value.
pub proof fn lemma_decode_encode<T: Serialize>(v: T)
    ensures
        decoded::<T>(v.encoding()) == Ok::<T, ParseError>(v),
        round_trips(v),
{
    T::lemma_round_trip(v, Seq::empty());
    assert(v.encoding() + Seq::<u8>::empty() =~= v.encoding());
    assert forall|rest: Seq<u8>| #[trigger]
        T::parse_ctx(v.encoding() + rest) == Some((v, v.encoding().len() as int)) by {
        T::lemma_round_trip(v, rest);
    }
}

/// What is written over the start of an entry begins with what was
/// written.
pub proof fn lemma_overwritten_start(data: Seq<u8>, bytes: Seq<u8>)
    ensures
        overwritten(data, 0, bytes) == bytes + overwritten(data, 0, bytes).skip(
            bytes.len() as int,
        ),
{
    let after = overwritten(data, 0, bytes);
    assert(after =~= bytes + after.skip(bytes.len() as int));
}

/// After a value was put under a key, the key has the value: a map gives
/// back what was inserted, and a box what was set.
pub proof fn lemma_get_after_put<V: Serial + DeserialStateCtx>(
    m: Map<Seq<u8>, Seq<u8>>,
    key: Seq<u8>,
    v: V,
)
    requires
        round_trips(v),
    ensures
        value_at::<V>(stored(m, key, v.encoding()), key) == Some(Ok::<V, ParseError>(v)),
{
    let bytes = v.encoding();
    lemma_overwritten_start(content(m, key), bytes);
    let rest = overwritten(content(m, key), 0, bytes).skip(bytes.len() as int);
    assert(V::parse_ctx(bytes + rest) == Some((v, bytes.len() as int)));
}

/// Putting a value under one key leaves what is under every other key.
pub proof fn lemma_put_keeps_others<V: DeserialStateCtx>(
    m: Map<Seq<u8>, Seq<u8>>,
    key: Seq<u8>,
    bytes: Seq<u8>,
    other: Seq<u8>,
)
    requires
        other != key,
    ensures
        value_at::<V>(stored(m, key, bytes), other) == value_at::<V>(m, other),
{
}

/// Values put under two different keys can be put in either order: the
/// store is the same.
pub proof fn lemma_puts_commute(
    m: Map<Seq<u8>, Seq<u8>>,
    key_a: Seq<u8>,
    bytes_a: Seq<u8>,
    key_b: Seq<u8>,
    bytes_b: Seq<u8>,
)
    requires
        key_a != key_b,
    ensures
        stored(stored(m, key_a, bytes_a), key_b, bytes_b) == stored(
            stored(m, key_b, bytes_b),
            key_a,
            bytes_a,
        ),
{
    assert(stored(stored(m, key_a, bytes_a), key_b, bytes_b) =~= stored(
        stored(m, key_b, bytes_b),
        key_a,
        bytes_a,
    ));
}

/// Under a key there is something exactly where the store holds the key,
/// and after a value was put under a key the store holds the key.
pub proof fn lemma_put_is_there<V: DeserialStateCtx>(
    m: Map<Seq<u8>, Seq<u8>>,
    key: Seq<u8>,
    bytes: Seq<u8>,
)
    ensures
        value_at::<V>(m, key) is Some <==> m.contains_key(key),
        stored(m, key, bytes).contains_key(key),
        value_at::<V>(stored(m, key, bytes), key) is Some,
{
}

/// The store after a run of writes, each of which puts bytes under a key
/// or, where it names no bytes, removes the key.
pub open spec fn written_all(
    m: Map<Seq<u8>, Seq<u8>>,
    writes: Seq<(Seq<u8>, Option<Seq<u8>>)>,
) -> Map<Seq<u8>, Seq<u8>>
    decreases writes.len(),
{
    if writes.len() == 0 {
        m
    } else {
        let before = written_all(m, writes.drop_last());
        match writes.last().1 {
            Some(bytes) => stored(before, writes.last().0, bytes),
            None => before.remove(writes.last().0),
        }
    }
}

/// No write of the run is to `key`.
pub open spec fn writes_spare(writes: Seq<(Seq<u8>, Option<Seq<u8>>)>, key: Seq<u8>) -> bool {
    forall|i: int| 0 <= i < writes.len() ==> (#[trigger] writes[i]).0 != key
}

/// A run of writes to other keys, however long, leaves what is under a
/// key.
pub proof fn lemma_writes_keep_others(
    m: Map<Seq<u8>, Seq<u8>>,
    writes: Seq<(Seq<u8>, Option<Seq<u8>>)>,
    key: Seq<u8>,
)
    requires
        writes_spare(writes, key),
    ensures
        written_all(m, writes).contains_key(key) == m.contains_key(key),
        content(written_all(m, writes), key) == content(m, key),
    decreases writes.len(),
{
    if writes.len() > 0 {
        let earlier = writes.drop_last();
        assert forall|i: int| 0 <= i < earlier.len() implies (#[trigger] earlier[i]).0 != key by {
            assert(earlier[i] == writes[i]);
        }
        lemma_writes_keep_others(m, earlier, key);
        assert(writes[writes.len() - 1].0 != key);
    }
}

/// After a value was put under a key, and whatever was written to other
/// keys before and after, the key has the value.
pub proof fn lemma_get_after_put_and_writes<V: Serial + DeserialStateCtx>(
    m: Map<Seq<u8>, Seq<u8>>,
    key: Seq<u8>,
    v: V,
    later: Seq<(Seq<u8>, Option<Seq<u8>>)>,
)
    requires
        round_trips(v),
        writes_spare(later, key),
    ensures
        value_at::<V>(written_all(stored(m, key, v.encoding()), later), key) == Some(
            Ok::<V, ParseError>(v),
        ),
{
    let put = stored(m, key, v.encoding());
    lemma_get_after_put::<V>(m, key, v);
    lemma_writes_keep_others(put, later, key);
    assert(content(written_all(put, later), key) == content(put, key));
}

/// The store after each pair of a run was put: bytes under a key.
pub open spec fn put_all(m: Map<Seq<u8>, Seq<u8>>, puts: Seq<(Seq<u8>, Seq<u8>)>) -> Map<
    Seq<u8>,
    Seq<u8>,
>
    decreases puts.len(),
{
    if puts.len() == 0 {
        m
    } else {
        stored(put_all(m, puts.drop_last()), puts.last().0, puts.last().1)
    }
}

/// No two pairs of the run have the same key.
pub open spec fn keys_distinct(puts: Seq<(Seq<u8>, Seq<u8>)>) -> bool {
    forall|i: int, j: int|
        0 <= i < j < puts.len() ==> (#[trigger] puts[i]).0 != (#[trigger] puts[j]).0
}

/// After a run of puts to different keys, each of the keys holds what was
/// put under it, written over the start of what it held before, and every
/// other key holds what it held: the order of the run does not show.
pub proof fn lemma_put_all(m: Map<Seq<u8>, Seq<u8>>, puts: Seq<(Seq<u8>, Seq<u8>)>)
    requires
        keys_distinct(puts),
    ensures
        forall|i: int|
            0 <= i < puts.len() ==> put_all(m, puts).contains_key((#[trigger] puts[i]).0)
                && put_all(m, puts)[puts[i].0] == overwritten(
                content(m, puts[i].0),
                0,
                puts[i].1,
            ),
        forall|k: Seq<u8>|
            (forall|i: int| 0 <= i < puts.len() ==> (#[trigger] puts[i]).0 != k) ==> (
            #[trigger] put_all(m, puts).contains_key(k)) == m.contains_key(k) && content(
                put_all(m, puts),
                k,
            ) == content(m, k),
    decreases puts.len(),
{
    if puts.len() > 0 {
        let earlier = puts.drop_last();
        let last = puts.len() - 1;
        assert forall|i: int, j: int| 0 <= i < j < earlier.len() implies (#[trigger] earlier[i]).0
            != (#[trigger] earlier[j]).0 by {
            assert(earlier[i] == puts[i] && earlier[j] == puts[j]);
        }
        lemma_put_all(m, earlier);
        let before = put_all(m, earlier);
        assert forall|i: int| 0 <= i < earlier.len() implies (#[trigger] earlier[i]).0
            != puts[last].0 by {
            assert(earlier[i] == puts[i]);
        }
        assert(before.contains_key(puts[last].0) == m.contains_key(puts[last].0));
        assert(content(before, puts[last].0) == content(m, puts[last].0));
        assert forall|i: int| 0 <= i < puts.len() implies put_all(m, puts).contains_key(
            (#[trigger] puts[i]).0,
        ) && put_all(m, puts)[puts[i].0] == overwritten(content(m, puts[i].0), 0, puts[i].1) by {
            if i < last {
                assert(earlier[i] == puts[i]);
                assert(puts[i].0 != puts[last].0);
            }
        }
        assert forall|k: Seq<u8>|
            (forall|i: int| 0 <= i < puts.len() ==> (#[trigger] puts[i]).0 != k) implies (
        #[trigger] put_all(m, puts).contains_key(k)) == m.contains_key(k) && content(
            put_all(m, puts),
            k,
        ) == content(m, k) by {
            assert(puts[last].0 != k);
            assert forall|i: int| 0 <= i < earlier.len() implies (#[trigger] earlier[i]).0
                != k by {
                assert(earlier[i] == puts[i]);
            }
            assert(before.contains_key(k) == m.contains_key(k));
        }
    }
}

/// Pairs with different keys can be put in any order: two runs that hold
/// the same pairs leave the same store.
pub proof fn lemma_puts_in_any_order(
    m: Map<Seq<u8>, Seq<u8>>,
    one: Seq<(Seq<u8>, Seq<u8>)>,
    other: Seq<(Seq<u8>, Seq<u8>)>,
)
    requires
        keys_distinct(one),
        keys_distinct(other),
        forall|p: (Seq<u8>, Seq<u8>)| one.contains(p) <==> other.contains(p),
    ensures
        put_all(m, one) == put_all(m, other),
{
    lemma_put_all(m, one);
    lemma_put_all(m, other);
    let a = put_all(m, one);
    let b = put_all(m, other);
    assert forall|k: Seq<u8>| a.contains_key(k) == b.contains_key(k) && (a.contains_key(k)
        ==> a[k] == b[k]) by {
        if exists|i: int| 0 <= i < one.len() && (#[trigger] one[i]).0 == k {
            let i = choose|i: int| 0 <= i < one.len() && (#[trigger] one[i]).0 == k;
            assert(one.contains(one[i]));
            assert(other.contains(one[i]));
            let j = choose|j: int| 0 <= j < other.len() && other[j] == one[i];
            assert(other[j].0 == k);
        } else if exists|j: int| 0 <= j < other.len() && (#[trigger] other[j]).0 == k {
            let j = choose|j: int| 0 <= j < other.len() && (#[trigger] other[j]).0 == k;
            assert(other.contains(other[j]));
            assert(one.contains(other[j]));
            let i = choose|i: int| 0 <= i < one.len() && one[i] == other[j];
            assert(one[i].0 == k);
        } else {
            assert(a.contains_key(k) == m.contains_key(k));
            assert(b.contains_key(k) == m.contains_key(k));
            assert(content(a, k) == content(b, k));
        }
    }
    assert(a =~= b);
}

/// After a run of puts to different keys, in whatever order, each key has
/// the value whose encoding was put under it.
pub proof fn lemma_get_after_puts<V: Serial + DeserialStateCtx>(
    m: Map<Seq<u8>, Seq<u8>>,
    puts: Seq<(Seq<u8>, Seq<u8>)>,
    i: int,
    v: V,
)
    requires
        keys_distinct(puts),
        0 <= i < puts.len(),
        puts[i].1 == v.encoding(),
        round_trips(v),
    ensures
        value_at::<V>(put_all(m, puts), puts[i].0) == Some(Ok::<V, ParseError>(v)),
{
    lemma_put_all(m, puts);
    lemma_get_after_put::<V>(m, puts[i].0, v);
    assert(put_all(m, puts)[puts[i].0] == stored(m, puts[i].0, v.encoding())[puts[i].0]);
}

/// Two items have the same key in the store only where they have the same
/// prefix and the same encoded key: collections with different prefixes
/// share no key, and neither do two items of one collection.
pub proof fn lemma_item_keys_differ(
    prefix_a: u64,
    sub_a: Seq<u8>,
    prefix_b: u64,
    sub_b: Seq<u8>,
)
    ensures
        item_key(prefix_a, sub_a) == item_key(prefix_b, sub_b) <==> prefix_a == prefix_b
            && sub_a == sub_b,
        is_prefix(spec_u64_to_le_bytes(prefix_a), item_key(prefix_a, sub_a)),
        is_prefix(spec_u64_to_le_bytes(prefix_b), item_key(prefix_a, sub_a)) ==> prefix_a
            == prefix_b,
{
    lemma_auto_spec_u64_to_from_le_bytes();
    let a = spec_u64_to_le_bytes(prefix_a);
    let b = spec_u64_to_le_bytes(prefix_b);
    assert(item_key(prefix_a, sub_a).subrange(0, 8) =~= a);
    assert(item_key(prefix_b, sub_b).subrange(0, 8) =~= b);
    assert(item_key(prefix_a, sub_a).subrange(8, 8 + sub_a.len() as int) =~= sub_a);
    assert(item_key(prefix_b, sub_b).subrange(8, 8 + sub_b.len() as int) =~= sub_b);
    if item_key(prefix_a, sub_a) == item_key(prefix_b, sub_b) {
        assert(a == b);
        assert(sub_a.len() == sub_b.len());
    }
}

/// After a value was set in a box, the box holds the value, however
/// often it is asked and whatever the store held at its prefix before.
pub proof fn lemma_box_get_after_set<T: Serial + DeserialStateCtx>(
    m: Map<Seq<u8>, Seq<u8>>,
    b: StateBox<T>,
    v: T,
)
    requires
        round_trips(v),
    ensures
        value_at::<T>(
            stored(m, spec_u64_to_le_bytes(b.prefix), v.encoding()),
            spec_u64_to_le_bytes(b.prefix),
        ) == Some(Ok::<T, ParseError>(v)),
{
    lemma_get_after_put::<T>(m, spec_u64_to_le_bytes(b.prefix), v);
}

/// A box that is read back from its bytes is the box that was written, so
/// it has the same prefix and holds the same value; reading it takes
/// eight bytes and nothing of the store.
pub proof fn lemma_box_read_back<T: Serial + DeserialStateCtx>(b: StateBox<T>, rest: Seq<u8>)
    ensures
        b.encoding().len() == 8,
        StateBox::<T>::parse_ctx(b.encoding() + rest) == Some((b, 8int)),
        decoded_ctx::<StateBox<T>>(b.encoding() + rest) == Ok::<StateBox<T>, ParseError>(b),
{
    lemma_auto_spec_u64_to_from_le_bytes();
    lemma_box_round_trip(b);
    assert(StateBox::<T>::parse_ctx(b.encoding() + rest) == Some(
        (b, b.encoding().len() as int),
    ));
}

/// After a key was removed, nothing is under it.
pub proof fn lemma_get_after_remove<V: DeserialStateCtx>(m: Map<Seq<u8>, Seq<u8>>, key: Seq<u8>)
    ensures
        value_at::<V>(m.remove(key), key) is None,
{
}

/// After a collection was cleared it is empty, and what other prefixes
/// hold is as it was.
pub proof fn lemma_empty_after_clear(m: Map<Seq<u8>, Seq<u8>>, prefix: Seq<u8>)
    ensures
        !any_prefixed(without_prefix(m, prefix), prefix),
        forall|k: Seq<u8>|
            !is_prefix(prefix, k) ==> (#[trigger] without_prefix(m, prefix).contains_key(k)
                == m.contains_key(k)) && content(without_prefix(m, prefix), k) == content(m, k),
{
}

/// The keys that a walk over a prefix yields are strictly increasing in
/// byte order, whatever was inserted and in whatever order.
pub proof fn lemma_walk_is_ordered(store: &ContractStateLL, prefix: Seq<u8>)
    requires
        store.wf(),
    ensures
        strictly_increasing(store.keys_under(prefix)),
{
    store.lemma_keys_under(prefix);
}

/// The items of one collection stand in the store in the byte order of
/// their encoded keys.
pub proof fn lemma_item_key_order(prefix: u64, sub_a: Seq<u8>, sub_b: Seq<u8>)
    ensures
        lex_lt(item_key(prefix, sub_a), item_key(prefix, sub_b)) == lex_lt(sub_a, sub_b),
{
    lemma_lex_lt_common_prefix(spec_u64_to_le_bytes(prefix), sub_a, sub_b, 0);
}

/// The stores of a run of allocations: each is what the one before it
/// becomes when its next prefix is handed out.
pub open spec fn allocation_run(stores: Seq<Map<Seq<u8>, Seq<u8>>>) -> bool {
    forall|i: int|
        0 <= i < stores.len() - 1 ==> can_allocate(#[trigger] stores[i]) && next_prefix(
            stores[i + 1],
        ) == Some((next_prefix(stores[i])->Some_0 + 1) as u64)
}

/// The prefixes handed out in a run of allocations grow by one each time:
/// no two of them are the same.
pub proof fn lemma_prefixes_distinct(stores: Seq<Map<Seq<u8>, Seq<u8>>>, i: int, j: int)
    requires
        allocation_run(stores),
        0 <= i < j < stores.len(),
    ensures
        next_prefix(stores[i]) is Some,
        next_prefix(stores[j]) is Some,
        next_prefix(stores[j])->Some_0 == next_prefix(stores[i])->Some_0 + (j - i),
        next_prefix(stores[i]) != next_prefix(stores[j]),
    decreases j - i,
{
    if j == i + 1 {
        assert(can_allocate(stores[i]));
    } else {
        lemma_prefixes_distinct(stores, i, j - 1);
        assert(can_allocate(stores[j - 1]));
    }
}

/// On a store that held no counter, the prefix handed out after `k`
/// allocations is `2 + k`. The counter is in the store, so an allocator
/// opened anew on the store goes on from there.
pub proof fn lemma_prefix_after_run(stores: Seq<Map<Seq<u8>, Seq<u8>>>, k: int)
    requires
        allocation_run(stores),
        0 <= k < stores.len(),
        !stores[0].contains_key(counter_key()),
    ensures
        next_prefix(stores[k]) == Some((INITIAL_NEXT_COLLECTION_PREFIX + k) as u64),
        INITIAL_NEXT_COLLECTION_PREFIX + k <= u64::MAX,
{
    lemma_first_prefix(stores[0]);
    if k > 0 {
        lemma_prefixes_distinct(stores, 0, k);
    }
}

/// Handing out a prefix is a step of a run of allocations, and it changes
/// nothing but the counter.
pub proof fn lemma_allocation_step(m: Map<Seq<u8>, Seq<u8>>, p: u64)
    requires
        next_prefix(m) == Some(p),
        p < u64::MAX,
    ensures
        next_prefix(after_allocation(m, p)) == Some((p + 1) as u64),
        forall|k: Seq<u8>|
            k != counter_key() ==> (#[trigger] after_allocation(m, p).contains_key(k)
                == m.contains_key(k)) && content(after_allocation(m, p), k) == content(m, k),
{
    crate::allocator::lemma_after_allocation(m, p);
}

/// Where the store holds no counter yet, the prefix handed out first is 2:
/// the one behind the two that are set aside.
pub proof fn lemma_first_prefix(m: Map<Seq<u8>, Seq<u8>>)
    requires
        !m.contains_key(counter_key()),
    ensures
        next_prefix(m) == Some(INITIAL_NEXT_COLLECTION_PREFIX),
        INITIAL_NEXT_COLLECTION_PREFIX > GENERIC_MAP_PREFIX > NEXT_COLLECTION_PREFIX_KEY,
{
    lemma_auto_spec_u64_to_from_le_bytes();
    assert(spec_u64_to_le_bytes(2u64).subrange(0, 8) =~= spec_u64_to_le_bytes(2u64));
}

/// After a value was put under a key of a map, a walk over the map finds
/// the key and the value there.
pub proof fn lemma_item_after_put<K: Serialize, V: Serial + DeserialStateCtx>(
    m: Map<Seq<u8>, Seq<u8>>,
    prefix: u64,
    k: K,
    v: V,
)
    requires
        round_trips(v),
    ensures
        item_at::<K, V>(
            stored(m, item_key(prefix, k.encoding()), v.encoding()),
            item_key(prefix, k.encoding()),
        ) == Ok::<(K, V), ParseError>((k, v)),
{
    lemma_auto_spec_u64_to_from_le_bytes();
    let key = item_key(prefix, k.encoding());
    assert(sub_key(key) =~= k.encoding());
    K::lemma_round_trip(k, Seq::empty());
    assert(k.encoding() + Seq::<u8>::empty() =~= k.encoding());
    lemma_get_after_put::<V>(m, key, v);
}

} // verus!
