use vstd::prelude::*;

use crate::item::LinkedItem;

verus! {

/// A store of list nodes, each in a slot addressed by a list key and an
/// optional value.
pub trait ListStorage<Key, Value>: Sized {
    /// The slots that hold a node.
    spec fn slots(&self) -> Map<(Key, Option<Value>), LinkedItem<Value>>;

    /// The node in slot `(key, at)`, if there is one.
    fn get(&self, key: &Key, at: Option<Value>) -> (r: Option<LinkedItem<Value>>)
        ensures
            r == self.slots().get((*key, at)),
    ;

    /// Puts `item` in slot `(key, at)`, replacing what was there.
    fn insert(&mut self, key: &Key, at: Option<Value>, item: LinkedItem<Value>)
        ensures
            final(self).slots() == old(self).slots().insert((*key, at), item),
    ;

    /// Empties slot `(key, at)` and returns what it held.
    fn take(&mut self, key: &Key, at: Option<Value>) -> (r: Option<LinkedItem<Value>>)
        ensures
            r == old(self).slots().get((*key, at)),
            final(self).slots() == old(self).slots().remove((*key, at)),
    ;
}

/// A slot of a store of `u64` lists, with the node it holds.
pub type Entry = (u64, Option<u64>, LinkedItem<u64>);

/// The slots that a run of entries fills, a later entry winning over an
/// earlier one for the same slot.
pub open spec fn slots_of(e: Seq<Entry>) -> Map<(u64, Option<u64>), LinkedItem<u64>>
    decreases e.len(),
{
    if e.len() == 0 {
        Map::empty()
    } else {
        slots_of(e.drop_last()).insert((e.last().0, e.last().1), e.last().2)
    }
}

/// A store of lists of `u64` values under `u64` keys, held in memory.
pub struct MemoryStorage {
    entries: Vec<Entry>,
}

fn same_at(a: Option<u64>, b: Option<u64>) -> (r: bool)
    ensures
        r == (a == b),
{
    match (a, b) {
        (None, None) => true,
        (Some(x), Some(y)) => x == y,
        _ => false,
    }
}

impl MemoryStorage {
    /// A store with no slot filled.
    pub fn new() -> (r: MemoryStorage)
        ensures
            r.slots() == Map::<(u64, Option<u64>), LinkedItem<u64>>::empty(),
    {
        MemoryStorage { entries: Vec::new() }
    }

    /// Drops every entry for slot `(key, at)`.
    fn discard(&mut self, key: u64, at: Option<u64>)
        ensures
            final(self).slots() == old(self).slots().remove((key, at)),
    {
        let mut kept: Vec<Entry> = Vec::new();
        let mut i: usize = 0;
        while i < self.entries.len()
            invariant
                i <= self.entries@.len(),
                self.entries@ == old(self).entries@,
                slots_of(kept@) == slots_of(self.entries@.subrange(0, i as int)).remove((key, at)),
            decreases self.entries@.len() - i,
        {
            let e = self.entries[i];
            let ghost prefix = self.entries@.subrange(0, i as int);
            assert(self.entries@.subrange(0, i + 1).drop_last() =~= prefix);
            if !(e.0 == key && same_at(e.1, at)) {
                let ghost before = kept@;
                kept.push(e);
                assert(kept@.drop_last() =~= before);
            }
            assert(slots_of(kept@) =~= slots_of(self.entries@.subrange(0, i + 1)).remove((key, at)));
            i = i + 1;
        }
        assert(self.entries@.subrange(0, self.entries@.len() as int) =~= self.entries@);
        self.entries = kept;
    }
}

impl ListStorage<u64, u64> for MemoryStorage {
    closed spec fn slots(&self) -> Map<(u64, Option<u64>), LinkedItem<u64>> {
        slots_of(self.entries@)
    }

    fn get(&self, key: &u64, at: Option<u64>) -> (r: Option<LinkedItem<u64>>) {
        let mut i: usize = self.entries.len();
        assert(self.entries@.subrange(0, i as int) =~= self.entries@);
        while i > 0
            invariant
                i <= self.entries@.len(),
                slots_of(self.entries@).get((*key, at)) == slots_of(
                    self.entries@.subrange(0, i as int),
                ).get((*key, at)),
            decreases i,
        {
            let e = self.entries[i - 1];
            assert(self.entries@.subrange(0, i as int).drop_last() =~= self.entries@.subrange(
                0,
                i - 1,
            ));
            if e.0 == *key && same_at(e.1, at) {
                return Some(e.2);
            }
            i = i - 1;
        }
        None
    }

    fn insert(&mut self, key: &u64, at: Option<u64>, item: LinkedItem<u64>) {
        self.discard(*key, at);
        let ghost before = self.entries@;
        self.entries.push((*key, at, item));
        assert(self.entries@.drop_last() =~= before);
        assert(slots_of(self.entries@) =~= old(self).slots().insert((*key, at), item));
    }

    fn take(&mut self, key: &u64, at: Option<u64>) -> (r: Option<LinkedItem<u64>>) {
        let r = self.get(key, at);
        self.discard(*key, at);
        r
    }
}

} // verus!
