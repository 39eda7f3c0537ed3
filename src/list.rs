use vstd::prelude::*;

use core::marker::PhantomData;

use crate::item::LinkedItem;
use crate::storage::ListStorage;

verus! {

/// The slots of a store, by list key and address.
pub type Slots<Key, Value> = Map<(Key, Option<Value>), LinkedItem<Value>>;

/// The node at `(key, at)`; a slot that holds nothing reads as the empty node.
pub open spec fn read_slot<Key, Value>(m: Slots<Key, Value>, key: Key, at: Option<Value>) -> LinkedItem<
    Value,
> {
    match m.get((key, at)) {
        Some(item) => item,
        None => LinkedItem::empty(),
    }
}

/// The slots after `value` is linked in as the new front of the list `key`.
pub open spec fn appended<Key, Value>(m: Slots<Key, Value>, key: Key, value: Value) -> Slots<
    Key,
    Value,
> {
    let head = read_slot(m, key, None);
    let m1 = m.insert((key, None), LinkedItem { prev: Some(value), next: head.next });
    let front = read_slot(m1, key, head.prev);
    let m2 = m1.insert((key, head.prev), LinkedItem { prev: front.prev, next: Some(value) });
    m2.insert((key, Some(value)), LinkedItem { prev: head.prev, next: None })
}

/// The slots after the node of `value` is cut out of the list `key`; unchanged
/// when that node is absent.
pub open spec fn removed<Key, Value>(m: Slots<Key, Value>, key: Key, value: Value) -> Slots<
    Key,
    Value,
> {
    match m.get((key, Some(value))) {
        None => m,
        Some(item) => {
            let m1 = m.remove((key, Some(value)));
            let before = read_slot(m1, key, item.prev);
            let m2 = m1.insert((key, item.prev), LinkedItem { prev: before.prev, next: item.next });
            let after = read_slot(m2, key, item.next);
            m2.insert((key, item.next), LinkedItem { prev: item.prev, next: after.next })
        },
    }
}

/// The address of position `i` of `s`: the sentinel outside of `s`.
pub open spec fn addr_at<Value>(s: Seq<Value>, i: int) -> Option<Value> {
    if 0 <= i < s.len() {
        Some(s[i])
    } else {
        None
    }
}

/// The list `key` of `m` holds `s`, oldest first: a ring through the sentinel,
/// linked both ways, with no other slot under `key` but the sentinel's.
pub open spec fn holds<Key, Value>(m: Slots<Key, Value>, key: Key, s: Seq<Value>) -> bool {
    &&& s.no_duplicates()
    &&& read_slot(m, key, None) == LinkedItem { prev: addr_at(s, s.len() - 1), next: addr_at(s, 0) }
    &&& forall|i: int|
        0 <= i < s.len() ==> m.get((key, Some(#[trigger] s[i]))) == Some(
            LinkedItem { prev: addr_at(s, i - 1), next: addr_at(s, i + 1) },
        )
    &&& forall|v: Value| #[trigger] m.contains_key((key, Some(v))) ==> s.contains(v)
}

/// The list engine over a store `Storage` of lists keyed by `Key`.
pub struct LinkedList<Storage, Key, Value>(PhantomData<(Storage, Key, Value)>);

impl<Storage: ListStorage<Key, Value>, Key, Value: Copy> LinkedList<Storage, Key, Value> {
    fn read_head(store: &Storage, key: &Key) -> (r: LinkedItem<Value>)
        ensures
            r == read_slot(store.slots(), *key, None),
    {
        Self::read(store, key, None)
    }

    fn write_head(store: &mut Storage, key: &Key, item: LinkedItem<Value>)
        ensures
            final(store).slots() == old(store).slots().insert((*key, None), item),
    {
        Self::write(store, key, None, item);
    }

    /// The node at `(key, at)`, or the empty node where the slot holds none.
    pub fn read(store: &Storage, key: &Key, at: Option<Value>) -> (r: LinkedItem<Value>)
        ensures
            r == read_slot(store.slots(), *key, at),
    {
        match store.get(key, at) {
            Some(item) => item,
            None => LinkedItem::new_empty(),
        }
    }

    fn write(store: &mut Storage, key: &Key, at: Option<Value>, item: LinkedItem<Value>)
        ensures
            final(store).slots() == old(store).slots().insert((*key, at), item),
    {
        store.insert(key, at, item);
    }

    /// Links `value` in as the new front of the list `key`.
    ///
    /// `value` must not be in that list already: the engine does not look, and
    /// a second copy breaks the ring.
    pub fn append(store: &mut Storage, key: &Key, value: Value)
        ensures
            final(store).slots() == appended(old(store).slots(), *key, value),
            forall|s: Seq<Value>|
                #![trigger holds(old(store).slots(), *key, s)]
                holds(old(store).slots(), *key, s) && !s.contains(value) ==> holds(
                    final(store).slots(),
                    *key,
                    s.push(value),
                ),
    {
        let head = Self::read_head(store, key);
        let new_head = LinkedItem { prev: Some(value), next: head.next };
        Self::write_head(store, key, new_head);

        let prev = Self::read(store, key, head.prev);
        let new_prev = LinkedItem { prev: prev.prev, next: Some(value) };
        Self::write(store, key, head.prev, new_prev);

        let item = LinkedItem { prev: head.prev, next: None };
        Self::write(store, key, Some(value), item);
        proof {
            assert forall|s: Seq<Value>|
                #![trigger holds(old(store).slots(), *key, s)]
                holds(old(store).slots(), *key, s) && !s.contains(value) implies holds(
                    store.slots(),
                    *key,
                    s.push(value),
                ) by {
                lemma_append_holds(old(store).slots(), *key, s, value);
            }
        }
    }

    /// Cuts the node of `value` out of the list `key`, linking its two
    /// neighbours to each other; does nothing where `value` has no node.
    pub fn remove(store: &mut Storage, key: &Key, value: Value)
        ensures
            final(store).slots() == removed(old(store).slots(), *key, value),
            !old(store).slots().contains_key((*key, Some(value))) ==> final(store).slots() == old(
                store,
            ).slots(),
            forall|s: Seq<Value>, i: int|
                #![trigger holds(old(store).slots(), *key, s), s[i]]
                holds(old(store).slots(), *key, s) && 0 <= i < s.len() && s[i] == value ==> holds(
                    final(store).slots(),
                    *key,
                    s.remove(i),
                ),
    {
        if let Some(item) = store.take(key, Some(value)) {
            let prev = Self::read(store, key, item.prev);
            let new_prev = LinkedItem { prev: prev.prev, next: item.next };
            Self::write(store, key, item.prev, new_prev);

            let next = Self::read(store, key, item.next);
            let new_next = LinkedItem { prev: item.prev, next: next.next };
            Self::write(store, key, item.next, new_next);
        }
        proof {
            assert forall|s: Seq<Value>, i: int|
                #![trigger holds(old(store).slots(), *key, s), s[i]]
                holds(old(store).slots(), *key, s) && 0 <= i < s.len() && s[i] == value implies holds(
                    store.slots(),
                    *key,
                    s.remove(i),
                ) by {
                lemma_remove_holds(old(store).slots(), *key, s, i);
            }
        }
    }
}

/// Appending a value that is not in the list makes it the list's new front.
pub proof fn lemma_append_holds<Key, Value>(
    m: Slots<Key, Value>,
    key: Key,
    s: Seq<Value>,
    value: Value,
)
    requires
        holds(m, key, s),
        !s.contains(value),
    ensures
        holds(appended(m, key, value), key, s.push(value)),
{
    let r = appended(m, key, value);
    let t = s.push(value);
    let n = s.len() as int;
    assert(t.no_duplicates()) by {
        assert forall|a: int, b: int| 0 <= a < b < t.len() implies t[a] != t[b] by {
            if b == n {
                assert(s.contains(s[a]));
            }
        }
    }
    assert forall|j: int| 0 <= j < t.len() implies r.get((key, Some(#[trigger] t[j]))) == Some(
        LinkedItem { prev: addr_at(t, j - 1), next: addr_at(t, j + 1) },
    ) by {
        if j < n {
            assert(t[j] == s[j]);
            assert(s[j] != value) by {
                assert(s.contains(s[j]));
            }
            if j == n - 1 {
                assert(addr_at(t, j + 1) == Some(value));
            } else {
                assert(m.get((key, Some(s[j]))) == Some(
                    LinkedItem { prev: addr_at(s, j - 1), next: addr_at(s, j + 1) },
                ));
            }
        }
    }
    assert forall|v: Value| #[trigger] r.contains_key((key, Some(v))) implies t.contains(v) by {
        if v == value {
            assert(t[n] == value);
        } else if m.contains_key((key, Some(v))) {
            let k = choose|k: int| 0 <= k < n && s[k] == v;
            assert(t[k] == v);
        } else {
            assert(n > 0);
            assert(t[n - 1] == v);
        }
    }
}

/// Removing the value at position `i` of a list takes it out of the sequence.
pub proof fn lemma_remove_holds<Key, Value>(m: Slots<Key, Value>, key: Key, s: Seq<Value>, i: int)
    requires
        holds(m, key, s),
        0 <= i < s.len(),
    ensures
        holds(removed(m, key, s[i]), key, s.remove(i)),
{
    let v = s[i];
    let n = s.len() as int;
    let t = s.remove(i);
    let pa = addr_at(s, i - 1);
    let na = addr_at(s, i + 1);
    assert(m.get((key, Some(v))) == Some(LinkedItem { prev: pa, next: na }));
    let m1 = m.remove((key, Some(v)));
    let before = read_slot(m1, key, pa);
    let m2 = m1.insert((key, pa), LinkedItem { prev: before.prev, next: na });
    let after = read_slot(m2, key, na);
    let r = m2.insert((key, na), LinkedItem { prev: pa, next: after.next });
    assert(r == removed(m, key, v));
    assert(i > 0 ==> pa != na);
    assert(i > 0 ==> before == LinkedItem { prev: addr_at(s, i - 2), next: Some(v) });
    assert(i == 0 ==> before == LinkedItem { prev: addr_at(s, n - 1), next: Some(v) });
    assert forall|q: (Key, Option<Value>)| q != (key, na) && q != (key, pa) && q != (key, Some(v))
        implies #[trigger] r.get(q) == m.get(q) by {}
    assert forall|j: int| -1 <= j <= n - 1 implies #[trigger] addr_at(t, j) == addr_at(
        s,
        if j < i {
            j
        } else {
            j + 1
        },
    ) by {}
    assert(t.no_duplicates()) by {
        assert forall|a: int, b: int| 0 <= a < b < t.len() implies t[a] != t[b] by {
            let a2 = if a < i {
                a
            } else {
                a + 1
            };
            let b2 = if b < i {
                b
            } else {
                b + 1
            };
            assert(t[a] == s[a2] && t[b] == s[b2]);
        }
    }
    assert(addr_at(t, n - 2) == addr_at(s, if n - 2 < i { n - 2 } else { n - 1 }));
    assert(addr_at(t, 0) == addr_at(s, if 0 < i { 0 } else { 1 }));
    assert forall|j: int| 0 <= j < t.len() implies r.get((key, Some(#[trigger] t[j]))) == Some(
        LinkedItem { prev: addr_at(t, j - 1), next: addr_at(t, j + 1) },
    ) by {
        let jj = if j < i {
            j
        } else {
            j + 1
        };
        assert(t[j] == s[jj]);
        assert(addr_at(t, j - 1) == addr_at(s, if j - 1 < i { j - 1 } else { j }));
        assert(addr_at(t, j + 1) == addr_at(s, if j + 1 < i { j + 1 } else { j + 2 }));
        assert(s[jj] != v);
        if i > 0 && jj != i - 1 {
            assert(s[jj] != s[i - 1]);
        }
        if i + 1 < n && jj != i + 1 {
            assert(s[jj] != s[i + 1]);
        }
        assert(m.get((key, Some(s[jj]))) == Some(
            LinkedItem { prev: addr_at(s, jj - 1), next: addr_at(s, jj + 1) },
        ));
    }
    assert forall|w: Value| #[trigger] r.contains_key((key, Some(w))) implies t.contains(w) by {
        let k = if m.contains_key((key, Some(w))) {
            choose|k: int| 0 <= k < n && s[k] == w
        } else if i > 0 && Some(w) == addr_at(s, i - 1) {
            i - 1
        } else {
            i + 1
        };
        assert(0 <= k < n && s[k] == w);
        assert(k != i);
        let kk = if k < i {
            k
        } else {
            k - 1
        };
        assert(t[kk] == w);
    }
}

/// No slot under `key` holds a node: the list `key` was never used.
pub open spec fn fresh<Key, Value>(m: Slots<Key, Value>, key: Key) -> bool {
    forall|at: Option<Value>| !#[trigger] m.contains_key((key, at))
}

/// The slots after appending each of `vs` in turn, first to last.
pub open spec fn append_all<Key, Value>(m: Slots<Key, Value>, key: Key, vs: Seq<Value>) -> Slots<
    Key,
    Value,
>
    decreases vs.len(),
{
    if vs.len() == 0 {
        m
    } else {
        append_all(appended(m, key, vs[0]), key, vs.drop_first())
    }
}

/// The slots after removing each of `vs` in turn, first to last.
pub open spec fn remove_all<Key, Value>(m: Slots<Key, Value>, key: Key, vs: Seq<Value>) -> Slots<
    Key,
    Value,
>
    decreases vs.len(),
{
    if vs.len() == 0 {
        m
    } else {
        remove_all(removed(m, key, vs[0]), key, vs.drop_first())
    }
}

/// A list that was never used is empty: its sentinel reads as the empty node.
pub proof fn lemma_fresh_is_empty<Key, Value>(m: Slots<Key, Value>, key: Key)
    requires
        fresh(m, key),
    ensures
        read_slot(m, key, None) == LinkedItem::<Value>::empty(),
        holds(m, key, Seq::<Value>::empty()),
{
    assert(!m.contains_key((key, None::<Value>)));
}

/// Appending to an empty list makes the value the front: the sentinel points
/// back to it and its node points forward to the sentinel.
pub proof fn lemma_append_to_empty<Key, Value>(m: Slots<Key, Value>, key: Key, value: Value)
    requires
        holds(m, key, Seq::<Value>::empty()),
    ensures
        read_slot(appended(m, key, value), key, None).prev == Some(value),
        read_slot(appended(m, key, value), key, Some(value)).next == None::<Value>,
        holds(appended(m, key, value), key, seq![value]),
{
    lemma_append_holds(m, key, Seq::<Value>::empty(), value);
    assert(Seq::<Value>::empty().push(value) =~= seq![value]);
    assert(seq![value][0] == value);
}

/// Appending values that are not in a list, one after the other, puts them
/// at its front in that order.
pub proof fn lemma_append_all_holds<Key, Value>(
    m: Slots<Key, Value>,
    key: Key,
    s: Seq<Value>,
    vs: Seq<Value>,
)
    requires
        holds(m, key, s),
        vs.no_duplicates(),
        forall|j: int| 0 <= j < vs.len() ==> !s.contains(#[trigger] vs[j]),
    ensures
        holds(append_all(m, key, vs), key, s + vs),
    decreases vs.len(),
{
    if vs.len() == 0 {
        assert(s + vs =~= s);
    } else {
        lemma_append_holds(m, key, s, vs[0]);
        let rest = vs.drop_first();
        assert forall|j: int| 0 <= j < rest.len() implies !s.push(vs[0]).contains(
            #[trigger] rest[j],
        ) by {
            assert(rest[j] == vs[j + 1]);
            if s.push(vs[0]).contains(rest[j]) {
                let k = choose|k: int| 0 <= k < s.len() + 1 && s.push(vs[0])[k] == rest[j];
                if k < s.len() {
                    assert(s.contains(s[k]));
                }
            }
        }
        lemma_append_all_holds(appended(m, key, vs[0]), key, s.push(vs[0]), rest);
        assert(s.push(vs[0]) + rest =~= s + vs);
    }
}

/// Removing every value of a list, one after the other in any order, leaves
/// it empty.
pub proof fn lemma_remove_all_holds<Key, Value>(
    m: Slots<Key, Value>,
    key: Key,
    s: Seq<Value>,
    order: Seq<Value>,
)
    requires
        holds(m, key, s),
        order.no_duplicates(),
        forall|v: Value| s.contains(v) <==> order.contains(v),
    ensures
        holds(remove_all(m, key, order), key, Seq::<Value>::empty()),
    decreases order.len(),
{
    if order.len() == 0 {
        if s.len() > 0 {
            assert(s.contains(s[0]));
        }
        assert(s =~= Seq::<Value>::empty());
    } else {
        let v = order[0];
        assert(order.contains(v));
        let i = choose|i: int| 0 <= i < s.len() && s[i] == v;
        lemma_remove_holds(m, key, s, i);
        let t = s.remove(i);
        let rest = order.drop_first();
        assert forall|w: Value| t.contains(w) <==> rest.contains(w) by {
            if t.contains(w) {
                let k = choose|k: int| 0 <= k < t.len() && t[k] == w;
                let kk = if k < i {
                    k
                } else {
                    k + 1
                };
                assert(s[kk] == w && kk != i);
                assert(s.contains(w));
                let o = choose|o: int| 0 <= o < order.len() && order[o] == w;
                assert(o != 0);
                assert(rest[o - 1] == w);
            }
            if rest.contains(w) {
                let o = choose|o: int| 0 <= o < rest.len() && rest[o] == w;
                assert(order[o + 1] == w);
                assert(order.contains(w));
                let k = choose|k: int| 0 <= k < s.len() && s[k] == w;
                assert(k != i);
                let kk = if k < i {
                    k
                } else {
                    k - 1
                };
                assert(t[kk] == w);
            }
        }
        assert(rest.no_duplicates()) by {
            assert forall|a: int, b: int| 0 <= a < b < rest.len() implies rest[a] != rest[b] by {
                assert(rest[a] == order[a + 1] && rest[b] == order[b + 1]);
            }
        }
        lemma_remove_all_holds(removed(m, key, v), key, t, rest);
    }
}

/// Appending distinct values to an empty list and then removing all of them,
/// in any order, leaves the list empty again: the sentinel reads as the empty
/// node and no value keeps a slot.
pub proof fn lemma_append_then_remove_all<Key, Value>(
    m: Slots<Key, Value>,
    key: Key,
    vs: Seq<Value>,
    order: Seq<Value>,
)
    requires
        holds(m, key, Seq::<Value>::empty()),
        vs.no_duplicates(),
        order.no_duplicates(),
        forall|v: Value| vs.contains(v) <==> order.contains(v),
    ensures
        read_slot(remove_all(append_all(m, key, vs), key, order), key, None) == LinkedItem::<
            Value,
        >::empty(),
        holds(remove_all(append_all(m, key, vs), key, order), key, Seq::<Value>::empty()),
{
    lemma_append_all_holds(m, key, Seq::<Value>::empty(), vs);
    assert(Seq::<Value>::empty() + vs =~= vs);
    lemma_remove_all_holds(append_all(m, key, vs), key, vs, order);
}

/// After appending `v1`, `v2` and `v3` and then removing `v2`, the nodes of
/// `v1` and `v3` point at each other and `v2` has no slot.
pub proof fn lemma_splice<Key, Value>(
    m: Slots<Key, Value>,
    key: Key,
    s: Seq<Value>,
    v1: Value,
    v2: Value,
    v3: Value,
)
    requires
        holds(m, key, s),
        !s.contains(v1),
        !s.contains(v2),
        !s.contains(v3),
        v1 != v2,
        v1 != v3,
        v2 != v3,
    ensures
        ({
            let r = removed(appended(appended(appended(m, key, v1), key, v2), key, v3), key, v2);
            &&& read_slot(r, key, Some(v1)).next == Some(v3)
            &&& read_slot(r, key, Some(v3)).prev == Some(v1)
            &&& !r.contains_key((key, Some(v2)))
        }),
{
    let m1 = appended(m, key, v1);
    let m2 = appended(m1, key, v2);
    let m3 = appended(m2, key, v3);
    let s1 = s.push(v1);
    let s2 = s1.push(v2);
    let s3 = s2.push(v3);
    lemma_append_holds(m, key, s, v1);
    assert(!s1.contains(v2)) by {
        if s1.contains(v2) {
            let k = choose|k: int| 0 <= k < s1.len() && s1[k] == v2;
            assert(k < s.len());
            assert(s.contains(s[k]));
        }
    }
    lemma_append_holds(m1, key, s1, v2);
    assert(!s2.contains(v3)) by {
        if s2.contains(v3) {
            let k = choose|k: int| 0 <= k < s2.len() && s2[k] == v3;
            assert(k < s.len());
            assert(s.contains(s[k]));
        }
    }
    lemma_append_holds(m2, key, s2, v3);
    let n = s.len() as int;
    assert(s3[n + 1] == v2);
    lemma_remove_holds(m3, key, s3, n + 1);
    let t = s3.remove(n + 1);
    let r = removed(m3, key, v2);
    assert(t[n] == v1 && t[n + 1] == v3);
    assert(r.get((key, Some(t[n]))) == Some(
        LinkedItem { prev: addr_at(t, n - 1), next: addr_at(t, n + 1) },
    ));
    assert(r.get((key, Some(t[n + 1]))) == Some(
        LinkedItem { prev: addr_at(t, n), next: addr_at(t, n + 2) },
    ));
    if r.contains_key((key, Some(v2))) {
        let k = choose|k: int| 0 <= k < t.len() && t[k] == v2;
        if k < n {
            assert(s.contains(s[k]));
        }
    }
}

/// Removing a value that is not in a list leaves every slot as it was.
pub proof fn lemma_remove_absent<Key, Value>(
    m: Slots<Key, Value>,
    key: Key,
    s: Seq<Value>,
    value: Value,
)
    requires
        holds(m, key, s),
        !s.contains(value),
    ensures
        removed(m, key, value) == m,
{
}

} // verus!
