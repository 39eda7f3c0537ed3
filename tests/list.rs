use storage_list::item::{CodecError, LinkedItem};
use storage_list::list::LinkedList;
use storage_list::storage::{ListStorage, MemoryStorage};

type List = LinkedList<MemoryStorage, u64, u64>;

fn node(prev: Option<u64>, next: Option<u64>) -> LinkedItem<u64> {
    LinkedItem { prev, next }
}

const K1: u64 = 7;
const A: u64 = 100;
const B: u64 = 200;
const C: u64 = 300;

#[test]
fn scenario_append_three_then_remove_middle() {
    let mut store = MemoryStorage::new();
    List::append(&mut store, &K1, A);
    List::append(&mut store, &K1, B);
    List::append(&mut store, &K1, C);

    assert_eq!(List::read(&store, &K1, None).prev, Some(C));
    assert_eq!(List::read(&store, &K1, None), node(Some(C), Some(A)));
    assert_eq!(List::read(&store, &K1, Some(C)), node(Some(B), None));
    assert_eq!(List::read(&store, &K1, Some(B)), node(Some(A), Some(C)));
    assert_eq!(List::read(&store, &K1, Some(A)), node(None, Some(B)));

    List::remove(&mut store, &K1, B);
    assert_eq!(List::read(&store, &K1, Some(A)), node(None, Some(C)));
    assert_eq!(List::read(&store, &K1, Some(C)), node(Some(A), None));
    assert_eq!(store.get(&K1, Some(B)), None);
    assert_eq!(List::read(&store, &K1, None), node(Some(C), Some(A)));
}

#[test]
fn fresh_key_reads_empty_sentinel() {
    let store = MemoryStorage::new();
    assert_eq!(List::read(&store, &K1, None), node(None, None));
    assert_eq!(store.get(&K1, None), None);
}

#[test]
fn append_to_empty_list_sets_front() {
    let mut store = MemoryStorage::new();
    List::append(&mut store, &K1, A);
    assert_eq!(List::read(&store, &K1, None).prev, Some(A));
    assert_eq!(List::read(&store, &K1, Some(A)).next, None);
    assert_eq!(List::read(&store, &K1, None), node(Some(A), Some(A)));
    assert_eq!(List::read(&store, &K1, Some(A)), node(None, None));
}

#[test]
fn append_then_remove_all_in_any_order_empties_list() {
    let values: [u64; 5] = [1, 2, 3, 4, 5];
    let orders: [[u64; 5]; 4] = [
        [1, 2, 3, 4, 5],
        [5, 4, 3, 2, 1],
        [3, 1, 5, 2, 4],
        [2, 4, 1, 5, 3],
    ];
    for order in orders.iter() {
        let mut store = MemoryStorage::new();
        for v in values.iter() {
            List::append(&mut store, &K1, *v);
        }
        for v in order.iter() {
            List::remove(&mut store, &K1, *v);
        }
        assert_eq!(List::read(&store, &K1, None), node(None, None));
        for v in values.iter() {
            assert_eq!(store.get(&K1, Some(*v)), None);
        }
    }
}

#[test]
fn remove_splices_neighbours_after_existing_elements() {
    let mut store = MemoryStorage::new();
    List::append(&mut store, &K1, 9);
    List::append(&mut store, &K1, A);
    List::append(&mut store, &K1, B);
    List::append(&mut store, &K1, C);
    List::remove(&mut store, &K1, B);
    assert_eq!(List::read(&store, &K1, Some(A)).next, Some(C));
    assert_eq!(List::read(&store, &K1, Some(C)).prev, Some(A));
    assert_eq!(List::read(&store, &K1, Some(A)), node(Some(9), Some(C)));
    assert_eq!(List::read(&store, &K1, Some(9)), node(None, Some(A)));
    assert_eq!(store.get(&K1, Some(B)), None);
}

#[test]
fn remove_front_and_tail() {
    let mut store = MemoryStorage::new();
    List::append(&mut store, &K1, A);
    List::append(&mut store, &K1, B);
    List::append(&mut store, &K1, C);
    List::remove(&mut store, &K1, C);
    assert_eq!(List::read(&store, &K1, None), node(Some(B), Some(A)));
    assert_eq!(List::read(&store, &K1, Some(B)), node(Some(A), None));
    List::remove(&mut store, &K1, A);
    assert_eq!(List::read(&store, &K1, None), node(Some(B), Some(B)));
    assert_eq!(List::read(&store, &K1, Some(B)), node(None, None));
    List::remove(&mut store, &K1, B);
    assert_eq!(store.get(&K1, None), Some(node(None, None)));
}

#[test]
fn remove_absent_value_changes_nothing() {
    let mut store = MemoryStorage::new();
    List::append(&mut store, &K1, A);
    List::append(&mut store, &K1, B);
    let addrs = [None, Some(A), Some(B), Some(C)];
    let before: Vec<Option<LinkedItem<u64>>> = addrs.iter().map(|a| store.get(&K1, *a)).collect();
    List::remove(&mut store, &K1, C);
    let after: Vec<Option<LinkedItem<u64>>> = addrs.iter().map(|a| store.get(&K1, *a)).collect();
    assert_eq!(before, after);
}

#[test]
fn lists_under_other_keys_are_untouched() {
    let mut store = MemoryStorage::new();
    List::append(&mut store, &1, A);
    List::append(&mut store, &2, A);
    List::append(&mut store, &2, B);
    List::remove(&mut store, &2, A);
    assert_eq!(List::read(&store, &1, None), node(Some(A), Some(A)));
    assert_eq!(List::read(&store, &1, Some(A)), node(None, None));
    assert_eq!(List::read(&store, &2, None), node(Some(B), Some(B)));
}

#[test]
fn store_insert_overwrites_and_take_empties() {
    let mut store = MemoryStorage::new();
    store.insert(&K1, Some(A), node(None, Some(B)));
    store.insert(&K1, Some(A), node(Some(C), None));
    assert_eq!(store.get(&K1, Some(A)), Some(node(Some(C), None)));
    assert_eq!(store.take(&K1, Some(A)), Some(node(Some(C), None)));
    assert_eq!(store.get(&K1, Some(A)), None);
    assert_eq!(store.take(&K1, Some(A)), None);
}

#[test]
fn node_encodes_prev_then_next() {
    let n = node(Some(1), None);
    assert_eq!(n.encode(), vec![1, 1, 0, 0, 0, 0, 0, 0, 0, 0]);
    let m = node(None, Some(0x0102030405060708));
    assert_eq!(m.encode(), vec![0, 1, 8, 7, 6, 5, 4, 3, 2, 1]);
    assert_eq!(node(None, None).encode(), vec![0, 0]);
    let mut dest = vec![42];
    n.encode_to(&mut dest);
    assert_eq!(dest, vec![42, 1, 1, 0, 0, 0, 0, 0, 0, 0, 0]);
}

#[test]
fn node_round_trip() {
    let nodes = [
        node(None, None),
        node(Some(5), None),
        node(None, Some(u64::MAX)),
        node(Some(0), Some(123456789)),
    ];
    for n in nodes.iter() {
        let bytes = n.encode();
        assert_eq!(LinkedItem::<u64>::decode(&bytes), Ok((*n, bytes.len())));
    }
}

#[test]
fn decode_leaves_trailing_bytes() {
    let bytes = vec![0, 1, 3, 0, 0, 0, 0, 0, 0, 0, 9, 9];
    assert_eq!(LinkedItem::<u64>::decode(&bytes), Ok((node(None, Some(3)), 10)));
}

#[test]
fn decode_rejects_malformed_bytes() {
    let empty: Vec<u8> = Vec::new();
    assert_eq!(LinkedItem::<u64>::decode(&empty), Err(CodecError::Malformed));
    assert_eq!(LinkedItem::<u64>::decode(&[0]), Err(CodecError::Malformed));
    assert_eq!(LinkedItem::<u64>::decode(&[2, 0]), Err(CodecError::Malformed));
    assert_eq!(LinkedItem::<u64>::decode(&[0, 2]), Err(CodecError::Malformed));
    assert_eq!(LinkedItem::<u64>::decode(&[1, 1, 2, 3]), Err(CodecError::Malformed));
    assert_eq!(LinkedItem::<u64>::decode(&[0, 1, 1, 2, 3, 4, 5, 6, 7]), Err(CodecError::Malformed));
}
