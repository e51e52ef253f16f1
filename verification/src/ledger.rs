use vstd::prelude::*;

use crate::Error;
use crate::store::assoc_map;
use crate::store::lemma_assoc_contains;
use crate::store::lemma_assoc_remove;
use crate::store::lemma_assoc_value;
use crate::store::unique_assoc_keys;

verus! {

/// The balance an association gives to `account`; an absent account holds
/// nothing.
pub open spec fn balance_in(m: Map<u64, u64>, account: u64) -> u64 {
    if m.contains_key(account) {
        m[account]
    } else {
        0
    }
}

/// The monetary ledger a sale draws on: a flat association from account to
/// balance.  The registry treats its transfer as an atomic, fallible
/// primitive.
pub struct Ledger {
    entries: Vec<(u64, u64)>,
}

impl View for Ledger {
    type V = Map<u64, u64>;

    closed spec fn view(&self) -> Map<u64, u64> {
        assoc_map(self.entries@)
    }
}

impl Ledger {
    /// The stored pairs never repeat an account.
    pub closed spec fn wf(&self) -> bool {
        unique_assoc_keys(self.entries@)
    }

    /// A ledger on which every account holds nothing.
    pub fn new() -> (r: Ledger)
        ensures
            r.wf(),
            r@ == Map::<u64, u64>::empty(),
    {
        Ledger { entries: Vec::new() }
    }

    fn find_index(&self, account: u64) -> (r: Option<usize>)
        ensures
            match r {
                Some(i) => i < self.entries@.len() && self.entries@[i as int].0 == account,
                None => forall|i: int|
                    0 <= i < self.entries@.len() ==> self.entries@[i].0 != account,
            },
    {
        let mut i: usize = 0;
        while i < self.entries.len()
            invariant
                i <= self.entries@.len(),
                forall|j: int| 0 <= j < i ==> self.entries@[j].0 != account,
            decreases self.entries@.len() - i,
        {
            if self.entries[i].0 == account {
                return Some(i);
            }
            i = i + 1;
        }
        None
    }

    /// The balance `account` currently holds.
    pub fn balance_of(&self, account: u64) -> (r: u64)
        requires
            self.wf(),
        ensures
            r == balance_in(self@, account),
    {
        match self.find_index(account) {
            Some(i) => {
                proof {
                    lemma_assoc_value(self.entries@, i as int);
                }
                self.entries[i].1
            },
            None => {
                proof {
                    lemma_assoc_contains(self.entries@, account);
                }
                0
            },
        }
    }

    /// Overwrite `account`'s balance.
    pub fn set_balance(&mut self, account: u64, amount: u64)
        requires
            old(self).wf(),
        ensures
            final(self).wf(),
            final(self)@ == old(self)@.insert(account, amount),
    {
        match self.find_index(account) {
            Some(i) => {
                let _ = self.entries.remove(i);
                proof {
                    lemma_assoc_value(old(self).entries@, i as int);
                    lemma_assoc_remove(old(self).entries@, i as int);
                    assert forall|a: int, b: int|
                        0 <= a < b < self.entries@.len() implies self.entries@[a].0
                        != self.entries@[b].0 by {
                        if b < i {
                            assert(old(self).entries@[a].0 != old(self).entries@[b].0);
                        } else if a < i {
                            assert(old(self).entries@[a].0 != old(self).entries@[b + 1].0);
                        } else {
                            assert(old(self).entries@[a + 1].0 != old(self).entries@[b + 1].0);
                        }
                    }
                }
            },
            None => {
                proof {
                    lemma_assoc_contains(self.entries@, account);
                    assert(old(self)@.remove(account) =~= old(self)@);
                }
            },
        }
        proof {
            lemma_assoc_contains(self.entries@, account);
        }
        let ghost mid = self.entries@;
        self.entries.push((account, amount));
        proof {
            assert(self.entries@.drop_last() =~= mid);
            assert(assoc_map(self.entries@) == assoc_map(mid).insert(account, amount));
            assert(assoc_map(mid).insert(account, amount) =~= old(self)@.insert(account, amount));
            assert forall|a: int, b: int|
                0 <= a < b < self.entries@.len() implies self.entries@[a].0
                != self.entries@[b].0 by {
                if b == self.entries@.len() - 1 {
                    assert(mid[a].0 != account);
                }
            }
        }
    }

    /// Move `amount` from `from` to `to`, atomically: either both balances
    /// change, or neither does and the error says why.
    pub fn transfer_value(&mut self, from: u64, to: u64, amount: u64) -> (r: Result<(), Error>)
        requires
            old(self).wf(),
        ensures
            final(self).wf(),
            match r {
                Ok(()) => {
                    &&& balance_in(old(self)@, from) >= amount
                    &&& (from == to ==> *final(self) == *old(self))
                    &&& (from != to ==> {
                        &&& balance_in(old(self)@, to) + amount <= u64::MAX
                        &&& balance_in(final(self)@, from) == balance_in(old(self)@, from) - amount
                        &&& balance_in(final(self)@, to) == balance_in(old(self)@, to) + amount
                    })
                    &&& (forall|a: u64|
                        a != from && a != to ==> balance_in(final(self)@, a) == balance_in(
                            old(self)@,
                            a,
                        ))
                },
                Err(e) => {
                    &&& *final(self) == *old(self)
                    &&& e == (if balance_in(old(self)@, from) < amount {
                        Error::InsufficientFunds
                    } else {
                        Error::Overflow
                    })
                    &&& (balance_in(old(self)@, from) < amount || (from != to && balance_in(
                        old(self)@,
                        to,
                    ) + amount > u64::MAX))
                },
            },
    {
        let from_balance = self.balance_of(from);
        if from_balance < amount {
            return Err(Error::InsufficientFunds);
        }
        if from == to {
            return Ok(());
        }
        let to_balance = self.balance_of(to);
        if to_balance > u64::MAX - amount {
            return Err(Error::Overflow);
        }
        self.set_balance(from, from_balance - amount);
        self.set_balance(to, to_balance + amount);
        Ok(())
    }
}

} // verus!
