use vstd::prelude::*;

use crate::store::assoc_map;
use crate::store::lemma_assoc_contains;
use crate::store::lemma_assoc_remove;
use crate::store::lemma_assoc_value;
use crate::store::unique_assoc_keys;

verus! {

/// One node of an account's doubly linked ownership list.  The node for key
/// `(account, Some(id))` exists exactly while `account` owns entity `id`;
/// the node for `(account, None)` is the list head, whose `next` points to
/// the oldest owned entity and whose `prev` points to the newest.
#[derive(Clone, Copy, Debug, PartialEq, Eq)]
pub struct KittyLinkedItem {
    pub prev: Option<u32>,
    pub next: Option<u32>,
}

/// The sentinel read for an absent node: an empty list link.
pub open spec fn empty_item() -> KittyLinkedItem {
    KittyLinkedItem { prev: None, next: None }
}

/// The node read for `(account, key)`, defaulting to the empty sentinel.
pub open spec fn item_at(
    m: Map<(u64, Option<u32>), KittyLinkedItem>,
    account: u64,
    key: Option<u32>,
) -> KittyLinkedItem {
    if m.contains_key((account, key)) {
        m[(account, key)]
    } else {
        empty_item()
    }
}

/// `account` owns `kitty_id`: the node for that pair exists.
pub open spec fn owns(
    m: Map<(u64, Option<u32>), KittyLinkedItem>,
    account: u64,
    kitty_id: u32,
) -> bool {
    m.contains_key((account, Some(kitty_id)))
}

/// The exact effect of `append` on the stored association: rewrite the head,
/// then the old tail (read after the head was rewritten), then write the new
/// node for `kitty_id`.
pub open spec fn append_spec(
    m: Map<(u64, Option<u32>), KittyLinkedItem>,
    account: u64,
    kitty_id: u32,
) -> Map<(u64, Option<u32>), KittyLinkedItem> {
    let head = item_at(m, account, None);
    let m1 = m.insert((account, None), KittyLinkedItem { prev: Some(kitty_id), next: head.next });
    let prev = item_at(m1, account, head.prev);
    let m2 = m1.insert(
        (account, head.prev),
        KittyLinkedItem { prev: prev.prev, next: Some(kitty_id) },
    );
    m2.insert((account, Some(kitty_id)), KittyLinkedItem { prev: head.prev, next: None })
}

/// The exact effect of `remove` on the stored association: take the node out
/// if it exists, then splice its two neighbours (each read after the writes
/// so far), else change nothing.
pub open spec fn remove_spec(
    m: Map<(u64, Option<u32>), KittyLinkedItem>,
    account: u64,
    kitty_id: u32,
) -> Map<(u64, Option<u32>), KittyLinkedItem> {
    if m.contains_key((account, Some(kitty_id))) {
        let item = m[(account, Some(kitty_id))];
        let m1 = m.remove((account, Some(kitty_id)));
        let prev = item_at(m1, account, item.prev);
        let m2 = m1.insert(
            (account, item.prev),
            KittyLinkedItem { prev: prev.prev, next: item.next },
        );
        let next = item_at(m2, account, item.next);
        m2.insert((account, item.next), KittyLinkedItem { prev: item.prev, next: next.next })
    } else {
        m
    }
}

/// Per-account doubly linked ownership lists, stored as key/node pairs of a
/// flat association from `(account, Option<entity id>)` to link nodes.
pub struct OwnedKitties {
    entries: Vec<((u64, Option<u32>), KittyLinkedItem)>,
}

impl View for OwnedKitties {
    type V = Map<(u64, Option<u32>), KittyLinkedItem>;

    closed spec fn view(&self) -> Map<(u64, Option<u32>), KittyLinkedItem> {
        assoc_map(self.entries@)
    }
}

impl OwnedKitties {
    /// The stored pairs never repeat a key.
    pub closed spec fn wf(&self) -> bool {
        unique_assoc_keys(self.entries@)
    }

    /// An index with no lists at all.
    pub fn new() -> (r: OwnedKitties)
        ensures
            r.wf(),
            r@ == Map::<(u64, Option<u32>), KittyLinkedItem>::empty(),
    {
        OwnedKitties { entries: Vec::new() }
    }

    fn find_index(&self, key: (u64, Option<u32>)) -> (r: Option<usize>)
        ensures
            match r {
                Some(i) => i < self.entries@.len() && self.entries@[i as int].0 == key,
                None => forall|i: int| 0 <= i < self.entries@.len() ==> self.entries@[i].0 != key,
            },
    {
        let mut i: usize = 0;
        while i < self.entries.len()
            invariant
                i <= self.entries@.len(),
                forall|j: int| 0 <= j < i ==> self.entries@[j].0 != key,
            decreases self.entries@.len() - i,
        {
            let e = self.entries[i].0;
            let accounts_match = e.0 == key.0;
            let ids_match = match (e.1, key.1) {
                (Option::None, Option::None) => true,
                (Option::Some(x), Option::Some(y)) => x == y,
                _ => false,
            };
            if accounts_match && ids_match {
                return Some(i);
            }
            i = i + 1;
        }
        None
    }

    fn kv_get(&self, key: (u64, Option<u32>)) -> (r: Option<KittyLinkedItem>)
        requires
            self.wf(),
        ensures
            r == if self@.contains_key(key) {
                Some(self@[key])
            } else {
                None::<KittyLinkedItem>
            },
    {
        match self.find_index(key) {
            Some(i) => {
                proof {
                    lemma_assoc_value(self.entries@, i as int);
                }
                Some(self.entries[i].1)
            },
            None => {
                proof {
                    lemma_assoc_contains(self.entries@, key);
                }
                None
            },
        }
    }

    fn kv_take(&mut self, key: (u64, Option<u32>)) -> (r: Option<KittyLinkedItem>)
        requires
            old(self).wf(),
        ensures
            final(self).wf(),
            final(self)@ == old(self)@.remove(key),
            r == if old(self)@.contains_key(key) {
                Some(old(self)@[key])
            } else {
                None::<KittyLinkedItem>
            },
    {
        match self.find_index(key) {
            Some(i) => {
                let e = self.entries.remove(i);
                proof {
                    lemma_assoc_value(old(self).entries@, i as int);
                    lemma_assoc_remove(old(self).entries@, i as int);
                    assert forall|a: int, b: int|
                        0 <= a < b < self.entries@.len() implies self.entries@[a].0
                        != self.entries@[b].0 by {
                        if b < i {
                            assert(old(self).entries@[a].0 != old(self).entries@[b].0);
                        } else if a < i {
                            assert(old(self).entries@[a].0 != old(self).entries@[b + 1].0);
                        } else {
                            assert(old(self).entries@[a + 1].0 != old(self).entries@[b + 1].0);
                        }
                    }
                }
                Some(e.1)
            },
            None => {
                proof {
                    lemma_assoc_contains(self.entries@, key);
                    assert(old(self)@.remove(key) =~= old(self)@);
                }
                None
            },
        }
    }

    fn kv_insert(&mut self, key: (u64, Option<u32>), item: KittyLinkedItem)
        requires
            old(self).wf(),
        ensures
            final(self).wf(),
            final(self)@ == old(self)@.insert(key, item),
    {
        let _ = self.kv_take(key);
        proof {
            lemma_assoc_contains(self.entries@, key);
        }
        let ghost mid = self.entries@;
        self.entries.push((key, item));
        proof {
            assert(self.entries@.drop_last() =~= mid);
            assert(assoc_map(self.entries@) == assoc_map(mid).insert(key, item));
            assert(assoc_map(mid).insert(key, item) =~= old(self)@.insert(key, item));
            assert forall|a: int, b: int|
                0 <= a < b < self.entries@.len() implies self.entries@[a].0
                != self.entries@[b].0 by {
                if b == self.entries@.len() - 1 {
                    assert(mid[a].0 != key);
                }
            }
        }
    }

    /// Pure lookup for `(account, key)`: an absent node reads as the empty
    /// sentinel, never as an error.
    pub fn read(&self, account: u64, key: Option<u32>) -> (r: KittyLinkedItem)
        requires
            self.wf(),
        ensures
            r == item_at(self@, account, key),
    {
        match self.kv_get((account, key)) {
            Some(item) => item,
            None => KittyLinkedItem { prev: None, next: None },
        }
    }

    fn read_head(&self, account: u64) -> (r: KittyLinkedItem)
        requires
            self.wf(),
        ensures
            r == item_at(self@, account, None),
    {
        self.read(account, None)
    }

    fn write(&mut self, account: u64, key: Option<u32>, item: KittyLinkedItem)
        requires
            old(self).wf(),
        ensures
            final(self).wf(),
            final(self)@ == old(self)@.insert((account, key), item),
    {
        self.kv_insert((account, key), item);
    }

    fn write_head(&mut self, account: u64, item: KittyLinkedItem)
        requires
            old(self).wf(),
        ensures
            final(self).wf(),
            final(self)@ == old(self)@.insert((account, None), item),
    {
        self.write(account, None, item);
    }

    /// Ownership test: does the node for `(account, Some(kitty_id))` exist?
    pub fn contains(&self, account: u64, kitty_id: u32) -> (r: bool)
        requires
            self.wf(),
        ensures
            r == owns(self@, account, kitty_id),
    {
        match self.kv_get((account, Some(kitty_id))) {
            Some(_) => true,
            None => false,
        }
    }

    /// Append `kitty_id` at the tail of `account`'s list: rewrite the head,
    /// link the old tail forward, and write the new node.
    pub fn append(&mut self, account: u64, kitty_id: u32)
        requires
            old(self).wf(),
        ensures
            final(self).wf(),
            final(self)@ == append_spec(old(self)@, account, kitty_id),
    {
        let head = self.read_head(account);
        let new_head = KittyLinkedItem { prev: Some(kitty_id), next: head.next };
        self.write_head(account, new_head);

        let prev = self.read(account, head.prev);
        let new_prev = KittyLinkedItem { prev: prev.prev, next: Some(kitty_id) };
        self.write(account, head.prev, new_prev);

        let item = KittyLinkedItem { prev: head.prev, next: None };
        self.write(account, Some(kitty_id), item);
    }

    /// Remove `kitty_id` from `account`'s list, splicing its neighbours; a
    /// node that is not there makes this a no-op, not an error.
    pub fn remove(&mut self, account: u64, kitty_id: u32)
        requires
            old(self).wf(),
        ensures
            final(self).wf(),
            final(self)@ == remove_spec(old(self)@, account, kitty_id),
    {
        if let Some(item) = self.kv_take((account, Some(kitty_id))) {
            let prev = self.read(account, item.prev);
            let new_prev = KittyLinkedItem { prev: prev.prev, next: item.next };
            self.write(account, item.prev, new_prev);

            let next = self.read(account, item.next);
            let new_next = KittyLinkedItem { prev: item.prev, next: next.next };
            self.write(account, item.next, new_next);
        }
    }
}

} // verus!
