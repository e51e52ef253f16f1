use vstd::prelude::*;

use crate::owned::KittyLinkedItem;
use crate::owned::append_spec;
use crate::owned::empty_item;
use crate::owned::item_at;
use crate::owned::owns;
use crate::owned::remove_spec;

verus! {

/// The head's `next` target for a chain `s`, oldest entity first.
pub open spec fn first_link(s: Seq<u32>) -> Option<u32> {
    if s.len() == 0 {
        None
    } else {
        Some(s[0])
    }
}

/// The head's `prev` target for a chain `s`: its newest entity.
pub open spec fn last_link(s: Seq<u32>) -> Option<u32> {
    if s.len() == 0 {
        None
    } else {
        Some(s[s.len() - 1])
    }
}

/// `s` is exactly `account`'s ownership list in `m`, oldest first: the
/// entity nodes present are exactly those of `s`, the head links to both
/// ends, and every node's `prev` and `next` agree with its neighbours in
/// `s`.  Traversing forward from the head or backward from the tail
/// therefore visits exactly the entities of `s`.
pub open spec fn is_chain(
    m: Map<(u64, Option<u32>), KittyLinkedItem>,
    account: u64,
    s: Seq<u32>,
) -> bool {
    &&& s.no_duplicates()
    &&& (forall|id: u32|
        #![trigger owns(m, account, id)]
        #![trigger s.contains(id)]
        owns(m, account, id) <==> s.contains(id))
    &&& item_at(m, account, None).next == first_link(s)
    &&& item_at(m, account, None).prev == last_link(s)
    &&& (forall|i: int|
        0 <= i < s.len() ==> (#[trigger] item_at(m, account, Some(s[i]))).prev == (if i == 0 {
            None
        } else {
            Some(s[i - 1])
        }))
    &&& (forall|i: int|
        0 <= i < s.len() ==> (#[trigger] item_at(m, account, Some(s[i]))).next == (if i == s.len()
            - 1 {
            None::<u32>
        } else {
            Some(s[i + 1])
        }))
}

/// `account`'s keys in `m` form some consistent chain.
pub open spec fn has_chain(m: Map<(u64, Option<u32>), KittyLinkedItem>, account: u64) -> bool {
    exists|s: Seq<u32>| is_chain(m, account, s)
}

proof fn lemma_push_contains(s: Seq<u32>, x: u32, id: u32)
    ensures
        s.push(x).contains(id) <==> (s.contains(id) || id == x),
{
    if s.contains(id) {
        let i = choose|i: int| 0 <= i < s.len() && s[i] == id;
        assert(s.push(x)[i] == id);
    }
    if id == x {
        assert(s.push(x)[s.len() as int] == id);
    }
    if s.push(x).contains(id) && id != x {
        let i = choose|i: int| 0 <= i < s.push(x).len() && s.push(x)[i] == id;
        assert(i < s.len());
        assert(s[i] == id);
    }
}

proof fn lemma_remove_contains(s: Seq<u32>, k: int, id: u32)
    requires
        s.no_duplicates(),
        0 <= k < s.len(),
    ensures
        s.remove(k).contains(id) <==> (s.contains(id) && id != s[k]),
{
    let t = s.remove(k);
    if t.contains(id) {
        let i = choose|i: int| 0 <= i < t.len() && t[i] == id;
        if i < k {
            assert(s[i] == id);
        } else {
            assert(s[i + 1] == id);
        }
    }
    if s.contains(id) && id != s[k] {
        let i = choose|i: int| 0 <= i < s.len() && s[i] == id;
        if i < k {
            assert(t[i] == id);
        } else {
            assert(i > k);
            assert(t[i - 1] == id);
        }
    }
}

/// A chain is a property of the account's own keys alone: a second
/// association that agrees on them carries the same chain.
pub proof fn lemma_chain_frame(
    m1: Map<(u64, Option<u32>), KittyLinkedItem>,
    m2: Map<(u64, Option<u32>), KittyLinkedItem>,
    account: u64,
    s: Seq<u32>,
)
    requires
        is_chain(m1, account, s),
        forall|k: Option<u32>| #[trigger]
            m2.contains_key((account, k)) == m1.contains_key((account, k)),
        forall|k: Option<u32>|
            m1.contains_key((account, k)) ==> #[trigger] m2[(account, k)] == m1[(account, k)],
    ensures
        is_chain(m2, account, s),
{
    assert forall|k: Option<u32>| #[trigger] item_at(m2, account, k) == item_at(m1, account, k) by {
        assert(m2.contains_key((account, k)) == m1.contains_key((account, k)));
    }
    assert forall|id: u32| #[trigger] owns(m2, account, id) <==> s.contains(id) by {
        assert(m2.contains_key((account, Some(id))) == m1.contains_key((account, Some(id))));
    }
    assert(item_at(m2, account, None) == item_at(m1, account, None));
    assert forall|i: int| 0 <= i < s.len() implies (#[trigger] item_at(m2, account, Some(s[i])))
        == item_at(m1, account, Some(s[i])) by {
        assert(item_at(m2, account, Some(s[i])) == item_at(m1, account, Some(s[i])));
    }
}

/// Appending an entity that is not yet in the chain extends the chain at its
/// tail, adds exactly that one ownership, and leaves every other account's
/// keys untouched.
pub proof fn lemma_append_chain(
    m: Map<(u64, Option<u32>), KittyLinkedItem>,
    account: u64,
    s: Seq<u32>,
    x: u32,
)
    requires
        is_chain(m, account, s),
        !s.contains(x),
    ensures
        is_chain(append_spec(m, account, x), account, s.push(x)),
        forall|a: u64, id: u32| #[trigger]
            owns(append_spec(m, account, x), a, id) <==> (owns(m, a, id) || (a == account && id
                == x)),
        forall|k: (u64, Option<u32>)|
            k.0 != account ==> #[trigger] append_spec(m, account, x).contains_key(k)
                == m.contains_key(k),
        forall|k: (u64, Option<u32>)|
            k.0 != account && m.contains_key(k) ==> #[trigger] append_spec(m, account, x)[k]
                == m[k],
{
    let n = s.len() as int;
    let t = s.push(x);
    let r = append_spec(m, account, x);
    let h = item_at(m, account, None);
    let m1 = m.insert((account, None), KittyLinkedItem { prev: Some(x), next: h.next });
    let p = item_at(m1, account, h.prev);
    let m2 = m1.insert((account, h.prev), KittyLinkedItem { prev: p.prev, next: Some(x) });

    assert forall|id: u32| #[trigger] t.contains(id) <==> (s.contains(id) || id == x) by {
        lemma_push_contains(s, x, id);
    }
    assert(t.no_duplicates()) by {
        assert forall|i: int, j: int| 0 <= i < j < t.len() implies t[i] != t[j] by {
            if j < n {
                assert(s[i] != s[j]);
            } else {
                assert(t[i] == s[i]);
                if t[i] == x {
                    assert(s.contains(x));
                }
            }
        }
    }

    if n == 0 {
        assert(h.prev == None::<u32>);
        assert(item_at(r, account, None) == KittyLinkedItem { prev: Some(x), next: Some(x) });
        assert(item_at(r, account, Some(x)) == KittyLinkedItem { prev: None, next: None });
    } else {
        assert(s.contains(s[n - 1]));
        assert(owns(m, account, s[n - 1]));
        assert(h.prev == Some(s[n - 1]));
        // The head written first survives the two later writes.
        assert(item_at(r, account, None) == KittyLinkedItem { prev: Some(x), next: h.next });
        // The old tail keeps its own `prev` and now points at `x`.
        assert(p == item_at(m, account, Some(s[n - 1])));
        assert(item_at(r, account, Some(s[n - 1])) == KittyLinkedItem {
            prev: p.prev,
            next: Some(x),
        });
        // Interior nodes are untouched.
        assert forall|i: int| 0 <= i < n - 1 implies #[trigger] item_at(r, account, Some(s[i]))
            == item_at(m, account, Some(s[i])) by {
            assert(s[i] != s[n - 1]);
            assert(s[i] != x);
        }
        assert(item_at(r, account, Some(x)) == KittyLinkedItem { prev: Some(s[n - 1]), next: None });
    }

    assert forall|i: int| 0 <= i < t.len() implies (#[trigger] item_at(r, account, Some(t[i]))).prev
        == (if i == 0 {
        None::<u32>
    } else {
        Some(t[i - 1])
    }) && item_at(r, account, Some(t[i])).next == (if i == t.len() - 1 {
        None::<u32>
    } else {
        Some(t[i + 1])
    }) by {
        if i < n - 1 {
            assert(t[i] == s[i]);
            assert(item_at(r, account, Some(s[i])) == item_at(m, account, Some(s[i])));
        } else if i == n - 1 {
            assert(t[i] == s[i]);
        } else {
            assert(t[i] == x);
        }
    }

    assert forall|a: u64, id: u32| #[trigger] owns(r, a, id) <==> (owns(m, a, id) || (a == account
        && id == x)) by {
        if a == account && n > 0 {
            assert(m.contains_key((account, Some(s[n - 1]))));
        }
    }

    assert forall|id: u32| #[trigger] owns(r, account, id) <==> t.contains(id) by {
        assert(owns(r, account, id) <==> (owns(m, account, id) || id == x));
    }
}

/// Removing the entity at position `k` splices it out of the chain, ends
/// exactly that one ownership, and leaves every other account's keys
/// untouched.
pub proof fn lemma_remove_chain(
    m: Map<(u64, Option<u32>), KittyLinkedItem>,
    account: u64,
    s: Seq<u32>,
    k: int,
)
    requires
        is_chain(m, account, s),
        0 <= k < s.len(),
    ensures
        is_chain(remove_spec(m, account, s[k]), account, s.remove(k)),
        forall|a: u64, id: u32| #[trigger]
            owns(remove_spec(m, account, s[k]), a, id) <==> (owns(m, a, id) && !(a == account && id
                == s[k])),
        forall|key: (u64, Option<u32>)|
            key.0 != account ==> #[trigger] remove_spec(m, account, s[k]).contains_key(key)
                == m.contains_key(key),
        forall|key: (u64, Option<u32>)|
            key.0 != account && m.contains_key(key) ==> #[trigger] remove_spec(m, account, s[k])[key]
                == m[key],
{
    let n = s.len() as int;
    let id = s[k];
    let t = s.remove(k);
    let r = remove_spec(m, account, id);
    assert(s.contains(id));
    assert(owns(m, account, id));
    let item = m[(account, Some(id))];
    assert(item == item_at(m, account, Some(s[k])));
    let m1 = m.remove((account, Some(id)));
    let prev = item_at(m1, account, item.prev);
    let m2 = m1.insert((account, item.prev), KittyLinkedItem { prev: prev.prev, next: item.next });
    let next = item_at(m2, account, item.next);

    assert forall|e: u32| #[trigger] t.contains(e) <==> (s.contains(e) && e != id) by {
        lemma_remove_contains(s, k, e);
    }
    assert(t.no_duplicates()) by {
        assert forall|i: int, j: int| 0 <= i < j < t.len() implies t[i] != t[j] by {
            if j < k {
                assert(s[i] != s[j]);
            } else if i < k {
                assert(s[i] != s[j + 1]);
            } else {
                assert(s[i + 1] != s[j + 1]);
            }
        }
    }

    if k > 0 {
        assert(s.contains(s[k - 1]));
        assert(item.prev == Some(s[k - 1]));
        assert(s[k - 1] != id);
        assert(prev == item_at(m, account, Some(s[k - 1])));
    } else {
        assert(item.prev == None::<u32>);
        assert(prev == item_at(m, account, None));
    }
    if k < n - 1 {
        assert(s.contains(s[k + 1]));
        assert(item.next == Some(s[k + 1]));
        assert(s[k + 1] != id);
        if k > 0 {
            assert(s[k + 1] != s[k - 1]);
        }
        assert(next == item_at(m, account, Some(s[k + 1])));
    } else {
        assert(item.next == None::<u32>);
    }

    // The final values at the touched keys.
    if n == 1 {
        assert(item_at(r, account, None) == KittyLinkedItem { prev: None, next: None });
    } else if k == 0 {
        assert(item_at(r, account, None) == KittyLinkedItem {
            prev: last_link(s),
            next: Some(s[1]),
        });
        assert(item_at(r, account, Some(s[1])) == KittyLinkedItem {
            prev: None,
            next: if k + 1 == n - 1 {
                None
            } else {
                Some(s[k + 2])
            },
        });
    } else if k == n - 1 {
        assert(item_at(r, account, None) == KittyLinkedItem {
            prev: Some(s[k - 1]),
            next: first_link(s),
        });
        assert(item_at(r, account, Some(s[k - 1])) == KittyLinkedItem {
            prev: if k - 1 == 0 {
                None
            } else {
                Some(s[k - 2])
            },
            next: None,
        });
    } else {
        assert(item_at(r, account, None) == item_at(m, account, None));
        assert(item_at(r, account, Some(s[k - 1])) == KittyLinkedItem {
            prev: if k - 1 == 0 {
                None
            } else {
                Some(s[k - 2])
            },
            next: Some(s[k + 1]),
        });
        assert(item_at(r, account, Some(s[k + 1])) == KittyLinkedItem {
            prev: Some(s[k - 1]),
            next: if k + 1 == n - 1 {
                None
            } else {
                Some(s[k + 2])
            },
        });
    }

    // Untouched entity nodes.
    assert forall|i: int| 0 <= i < n && i != k && i != k - 1 && i != k + 1 implies #[trigger]
        item_at(r, account, Some(s[i])) == item_at(m, account, Some(s[i])) by {
        assert(s[i] != id);
        if k > 0 {
            assert(s[i] != s[k - 1]);
        }
        if k < n - 1 {
            assert(s[i] != s[k + 1]);
        }
    }

    assert forall|i: int| 0 <= i < t.len() implies (#[trigger] item_at(r, account, Some(t[i]))).prev
        == (if i == 0 {
        None::<u32>
    } else {
        Some(t[i - 1])
    }) && item_at(r, account, Some(t[i])).next == (if i == t.len() - 1 {
        None::<u32>
    } else {
        Some(t[i + 1])
    }) by {
        if i < k - 1 {
            assert(t[i] == s[i]);
            assert(item_at(r, account, Some(s[i])) == item_at(m, account, Some(s[i])));
        } else if i == k - 1 {
            assert(t[i] == s[i]);
        } else if i == k {
            assert(t[i] == s[i + 1]);
        } else {
            assert(t[i] == s[i + 1]);
            assert(item_at(r, account, Some(s[i + 1])) == item_at(m, account, Some(s[i + 1])));
        }
    }

    assert forall|a: u64, e: u32| #[trigger] owns(r, a, e) <==> (owns(m, a, e) && !(a == account
        && e == id)) by {
        if a == account {
            if k > 0 {
                assert(m.contains_key((account, Some(s[k - 1]))));
            }
            if k < n - 1 {
                assert(m.contains_key((account, Some(s[k + 1]))));
            }
        }
    }

    assert forall|e: u32| #[trigger] owns(r, account, e) <==> t.contains(e) by {
        assert(owns(r, account, e) <==> (owns(m, account, e) && e != id));
    }
}

/// Appending an entity that nobody owns keeps every account's list a
/// consistent chain, and adds exactly one ownership.
pub proof fn lemma_append_all_chains(
    m: Map<(u64, Option<u32>), KittyLinkedItem>,
    account: u64,
    x: u32,
)
    requires
        forall|a: u64| #[trigger] has_chain(m, a),
        !owns(m, account, x),
    ensures
        forall|a: u64| #[trigger] has_chain(append_spec(m, account, x), a),
        forall|a: u64, id: u32| #[trigger]
            owns(append_spec(m, account, x), a, id) <==> (owns(m, a, id) || (a == account && id
                == x)),
{
    let r = append_spec(m, account, x);
    assert(has_chain(m, account));
    let s = choose|s: Seq<u32>| is_chain(m, account, s);
    assert(!s.contains(x));
    lemma_append_chain(m, account, s, x);
    assert forall|a: u64| #[trigger] has_chain(r, a) by {
        if a == account {
            assert(is_chain(r, account, s.push(x)));
        } else {
            assert(has_chain(m, a));
            let sa = choose|sa: Seq<u32>| is_chain(m, a, sa);
            assert forall|k: Option<u32>| #[trigger] r.contains_key((a, k)) == m.contains_key(
                (a, k),
            ) by {
                assert(((a, k)).0 != account);
            }
            assert forall|k: Option<u32>| m.contains_key((a, k)) implies #[trigger] r[(a, k)]
                == m[(a, k)] by {
                assert(((a, k)).0 != account);
            }
            lemma_chain_frame(m, r, a, sa);
            assert(is_chain(r, a, sa));
        }
    }
}

/// Removing an entity keeps every account's list a consistent chain, and
/// ends at most that one ownership.
pub proof fn lemma_remove_all_chains(
    m: Map<(u64, Option<u32>), KittyLinkedItem>,
    account: u64,
    id: u32,
)
    requires
        forall|a: u64| #[trigger] has_chain(m, a),
    ensures
        forall|a: u64| #[trigger] has_chain(remove_spec(m, account, id), a),
        forall|a: u64, e: u32| #[trigger]
            owns(remove_spec(m, account, id), a, e) <==> (owns(m, a, e) && !(a == account && e
                == id)),
{
    let r = remove_spec(m, account, id);
    assert(has_chain(m, account));
    let s = choose|s: Seq<u32>| is_chain(m, account, s);
    if s.contains(id) {
        let k = choose|k: int| 0 <= k < s.len() && s[k] == id;
        lemma_remove_chain(m, account, s, k);
        assert forall|a: u64| #[trigger] has_chain(r, a) by {
            if a == account {
                assert(is_chain(r, account, s.remove(k)));
            } else {
                assert(has_chain(m, a));
                let sa = choose|sa: Seq<u32>| is_chain(m, a, sa);
                assert forall|key: Option<u32>| #[trigger] r.contains_key((a, key))
                    == m.contains_key((a, key)) by {
                    assert(((a, key)).0 != account);
                }
                assert forall|key: Option<u32>| m.contains_key((a, key)) implies #[trigger] r[
                    (a, key)
                ] == m[(a, key)] by {
                    assert(((a, key)).0 != account);
                }
                lemma_chain_frame(m, r, a, sa);
                assert(is_chain(r, a, sa));
            }
        }
    } else {
        assert(!owns(m, account, id));
        lemma_remove_absent(m, account, id);
        assert forall|a: u64| #[trigger] has_chain(r, a) by {
            assert(has_chain(m, a));
        }
    }
}

/// Removing an entity that the account does not own changes nothing.
pub proof fn lemma_remove_absent(
    m: Map<(u64, Option<u32>), KittyLinkedItem>,
    account: u64,
    id: u32,
)
    requires
        !owns(m, account, id),
    ensures
        remove_spec(m, account, id) == m,
{
}

/// Removing twice in a row is the same as removing once: the second call
/// finds no node and is a no-op.
pub proof fn lemma_remove_idempotent(
    m: Map<(u64, Option<u32>), KittyLinkedItem>,
    account: u64,
    s: Seq<u32>,
    id: u32,
)
    requires
        is_chain(m, account, s),
    ensures
        remove_spec(remove_spec(m, account, id), account, id) == remove_spec(m, account, id),
{
    if s.contains(id) {
        let k = choose|k: int| 0 <= k < s.len() && s[k] == id;
        lemma_remove_chain(m, account, s, k);
        assert(!owns(remove_spec(m, account, id), account, id));
        lemma_remove_absent(remove_spec(m, account, id), account, id);
    } else {
        assert(!owns(m, account, id));
        lemma_remove_absent(m, account, id);
        lemma_remove_absent(m, account, id);
    }
}

/// Appending a fresh entity and removing it right away restores the
/// association exactly, except that an account that never had a head node
/// now has an empty one.
pub proof fn lemma_append_remove_round_trip(
    m: Map<(u64, Option<u32>), KittyLinkedItem>,
    account: u64,
    s: Seq<u32>,
    x: u32,
)
    requires
        is_chain(m, account, s),
        !s.contains(x),
    ensures
        remove_spec(append_spec(m, account, x), account, x) == if m.contains_key((account, None)) {
            m
        } else {
            m.insert((account, None), empty_item())
        },
{
    let n = s.len() as int;
    let h = item_at(m, account, None);
    let g = append_spec(m, account, x);
    let r = remove_spec(g, account, x);
    lemma_append_chain(m, account, s, x);
    assert(owns(g, account, x));
    let item = g[(account, Some(x))];
    assert(item == KittyLinkedItem { prev: h.prev, next: None });
    let g1 = g.remove((account, Some(x)));
    let prev = item_at(g1, account, item.prev);
    let g2 = g1.insert((account, item.prev), KittyLinkedItem { prev: prev.prev, next: item.next });
    let next = item_at(g2, account, item.next);

    if n == 0 {
        assert(h.prev == None::<u32>);
        assert(h.next == None::<u32>);
        assert(prev == KittyLinkedItem { prev: Some(x), next: Some(x) });
        assert(g2 == g1.insert((account, None), KittyLinkedItem { prev: Some(x), next: None }));
        assert(next == KittyLinkedItem { prev: Some(x), next: None });
        assert(r == g2.insert((account, None), KittyLinkedItem { prev: None, next: None }));
        if m.contains_key((account, None)) {
            assert(m[(account, None)] == empty_item());
            assert(r =~= m);
        } else {
            assert(r =~= m.insert((account, None), empty_item()));
        }
    } else {
        assert(s.contains(s[n - 1]));
        assert(owns(m, account, s[n - 1]));
        assert(h.prev == Some(s[n - 1]));
        assert(h.next == first_link(s));
        assert(m.contains_key((account, None)));
        let tail = item_at(m, account, Some(s[n - 1]));
        assert(prev == KittyLinkedItem { prev: tail.prev, next: Some(x) });
        assert(g2 == g1.insert(
            (account, Some(s[n - 1])),
            KittyLinkedItem { prev: tail.prev, next: None },
        ));
        assert(tail.next == None::<u32>);
        assert(next == item_at(g2, account, None));
        assert(s[n - 1] != x);
        assert(next == KittyLinkedItem { prev: Some(x), next: h.next });
        assert(r == g2.insert((account, None), KittyLinkedItem { prev: Some(s[n - 1]), next: h.next }));
        assert(!owns(m, account, x));
        assert(r =~= m);
    }
}

} // verus!
