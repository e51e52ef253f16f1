use vstd::prelude::*;

use crate::Error;
use crate::chain::has_chain;
use crate::chain::lemma_append_all_chains;
use crate::chain::lemma_remove_all_chains;
use crate::dna::combine_dna_bytes;
use crate::dna::combine_dna_seq;
use crate::ledger::Ledger;
use crate::ledger::balance_in;
use crate::owned::OwnedKitties;
use crate::owned::append_spec;
use crate::owned::owns;
use crate::owned::remove_spec;
use crate::random::TransitionEnv;
use crate::random::random_value;
use crate::random::random_value_spec;

verus! {

/// One entity of the registry: its 128-bit DNA and its sale price.  The
/// identifier is not stored here: it is the entity's position in the table.
/// Ownership is not stored here either: it is derived solely from the
/// per-account ownership lists.
pub struct Kitty {
    pub dna: Vec<u8>,
    pub price: u64,
}

impl Kitty {
    /// Every entity carries a 128-bit DNA.
    pub open spec fn wf(&self) -> bool {
        self.dna@.len() == 16
    }
}

/// The registry: the entity table, dense and append-only, indexed by the
/// entity identifiers in order of creation, and the per-account ownership
/// lists.  The number of entities is the next identifier.
pub struct Module {
    pub kitties: Vec<Kitty>,
    pub owned: OwnedKitties,
}

impl Module {
    /// What the registry promises between transitions: identifiers fit the
    /// index type, every entity is well formed, every account's list is a
    /// consistent chain, every listed entity exists, and no entity is in two
    /// accounts' lists at once.
    pub open spec fn wf(&self) -> bool {
        &&& self.kitties@.len() <= u32::MAX
        &&& (forall|i: int| 0 <= i < self.kitties@.len() ==> (#[trigger] self.kitties@[i]).wf())
        &&& self.owned.wf()
        &&& (forall|a: u64| #[trigger] has_chain(self.owned@, a))
        &&& (forall|a: u64, id: u32| #[trigger] owns(self.owned@, a, id) ==> id < self.kitties@.len())
        &&& (forall|a: u64, b: u64, id: u32|
            #![trigger owns(self.owned@, a, id), owns(self.owned@, b, id)]
            owns(self.owned@, a, id) && owns(self.owned@, b, id) ==> a == b)
    }

    /// No entity is ever in two accounts' lists at once: any two owners of
    /// one entity are the same account.
    pub proof fn lemma_single_ownership(self, a: u64, b: u64, kitty_id: u32)
        requires
            self.wf(),
            owns(self.owned@, a, kitty_id),
            owns(self.owned@, b, kitty_id),
        ensures
            a == b,
    {
    }

    /// An empty registry: no entities, no ownership.
    pub fn new() -> (r: Module)
        ensures
            r.wf(),
            r.kitties@.len() == 0,
            r.owned@ == Map::<(u64, Option<u32>), crate::owned::KittyLinkedItem>::empty(),
    {
        let r = Module { kitties: Vec::new(), owned: OwnedKitties::new() };
        proof {
            assert forall|a: u64| #[trigger] has_chain(r.owned@, a) by {
                assert(crate::chain::is_chain(r.owned@, a, Seq::<u32>::empty()));
            }
        }
        r
    }

    /// The total number of entities, which is also the next identifier.
    pub fn kitties_count(&self) -> (r: u32)
        requires
            self.wf(),
        ensures
            r == self.kitties@.len(),
    {
        self.kitties.len() as u32
    }

    /// The entity stored under `kitty_id`, if any.
    pub fn kitty(&self, kitty_id: u32) -> (r: Option<&Kitty>)
        requires
            self.wf(),
        ensures
            match r {
                Some(k) => kitty_id < self.kitties@.len() && *k == self.kitties@[kitty_id as int],
                None => kitty_id >= self.kitties@.len(),
            },
    {
        if (kitty_id as usize) < self.kitties.len() {
            Some(&self.kitties[kitty_id as usize])
        } else {
            None
        }
    }

    /// Whether `account` owns `kitty_id`, read from its ownership list.
    pub fn is_owner(&self, account: u64, kitty_id: u32) -> (r: bool)
        requires
            self.wf(),
        ensures
            r == owns(self.owned@, account, kitty_id),
    {
        self.owned.contains(account, kitty_id)
    }

    /// The next unused identifier, or `Overflow` once the identifier space
    /// is exhausted.  Reads only; the count grows when the entity is stored.
    fn next_kitty_id(&self) -> (r: Result<u32, Error>)
        requires
            self.wf(),
        ensures
            r == if self.kitties@.len() == u32::MAX {
                Err::<u32, Error>(Error::Overflow)
            } else {
                Ok::<u32, Error>(self.kitties@.len() as u32)
            },
    {
        let kitty_id = self.kitties_count();
        if kitty_id == u32::MAX {
            return Err(Error::Overflow);
        }
        Ok(kitty_id)
    }

    /// Hand the freshly stored entity `kitty_id` to `owner`'s list.
    pub fn insert_owned_kitty(&mut self, owner: u64, kitty_id: u32)
        requires
            old(self).wf(),
            kitty_id < old(self).kitties@.len(),
            forall|a: u64| !owns(old(self).owned@, a, kitty_id),
        ensures
            final(self).wf(),
            final(self).kitties == old(self).kitties,
            final(self).owned@ == append_spec(old(self).owned@, owner, kitty_id),
    {
        proof {
            assert(!owns(old(self).owned@, owner, kitty_id));
        }
        self.owned.append(owner, kitty_id);
        proof {
            let m = old(self).owned@;
            let r = self.owned@;
            lemma_append_all_chains(m, owner, kitty_id);
            assert forall|a: u64, id: u32| #[trigger] owns(r, a, id) implies id
                < self.kitties@.len() by {
                assert(owns(r, a, id) <==> (owns(m, a, id) || (a == owner && id == kitty_id)));
            }
            assert forall|a: u64, b: u64, id: u32|
                owns(r, a, id) && owns(r, b, id) implies a == b by {
                assert(owns(r, a, id) <==> (owns(m, a, id) || (a == owner && id == kitty_id)));
                assert(owns(r, b, id) <==> (owns(m, b, id) || (b == owner && id == kitty_id)));
                if id == kitty_id {
                    assert(!owns(m, a, id));
                    assert(!owns(m, b, id));
                }
            }
        }
    }

    /// Store a new entity under the next identifier and hand it to `owner`.
    fn insert_kitty(&mut self, owner: u64, kitty_id: u32, kitty: Kitty)
        requires
            old(self).wf(),
            kitty_id == old(self).kitties@.len(),
            old(self).kitties@.len() < u32::MAX,
            kitty.wf(),
        ensures
            final(self).wf(),
            final(self).kitties@ == old(self).kitties@.push(kitty),
            final(self).owned@ == append_spec(old(self).owned@, owner, kitty_id),
    {
        self.kitties.push(kitty);
        proof {
            assert forall|a: u64| !owns(self.owned@, a, kitty_id) by {
                if owns(old(self).owned@, a, kitty_id) {
                    assert(kitty_id < old(self).kitties@.len());
                }
            }
        }
        self.insert_owned_kitty(owner, kitty_id);
    }

    /// Create a new entity for `sender`: allocate the next identifier,
    /// derive its DNA from the transition's randomness, store it with price
    /// zero, and hand it to `sender`.
    pub fn create(&mut self, sender: u64, env: TransitionEnv) -> (r: Result<u32, Error>)
        requires
            old(self).wf(),
        ensures
            final(self).wf(),
            match r {
                Ok(kitty_id) => {
                    &&& old(self).kitties@.len() < u32::MAX
                    &&& kitty_id == old(self).kitties@.len()
                    &&& final(self).kitties@.len() == old(self).kitties@.len() + 1
                    &&& (forall|i: int|
                        0 <= i < old(self).kitties@.len() ==> final(self).kitties@[i] == old(
                            self,
                        ).kitties@[i])
                    &&& final(self).kitties@[kitty_id as int].dna@ == random_value_spec(
                        sender,
                        env,
                    )
                    &&& final(self).kitties@[kitty_id as int].price == 0
                    &&& final(self).owned@ == append_spec(old(self).owned@, sender, kitty_id)
                },
                Err(e) => {
                    &&& e == Error::Overflow
                    &&& old(self).kitties@.len() == u32::MAX
                    &&& *final(self) == *old(self)
                },
            },
    {
        let kitty_id = match self.next_kitty_id() {
            Ok(id) => id,
            Err(e) => {
                return Err(e);
            },
        };
        let dna = random_value(sender, env);
        let kitty = Kitty { dna, price: 0 };
        self.insert_kitty(sender, kitty_id, kitty);
        Ok(kitty_id)
    }

    /// Breed a child of two distinct existing entities for `sender`.  The
    /// caller need not own either parent.  The child's DNA multiplexes the
    /// parents' DNA under the transition's randomness as selector.
    pub fn breed(&mut self, sender: u64, kitty_id_1: u32, kitty_id_2: u32, env: TransitionEnv) -> (r:
        Result<u32, Error>)
        requires
            old(self).wf(),
        ensures
            final(self).wf(),
            match r {
                Ok(kitty_id) => {
                    &&& kitty_id_1 < old(self).kitties@.len()
                    &&& kitty_id_2 < old(self).kitties@.len()
                    &&& kitty_id_1 != kitty_id_2
                    &&& old(self).kitties@.len() < u32::MAX
                    &&& kitty_id == old(self).kitties@.len()
                    &&& final(self).kitties@.len() == old(self).kitties@.len() + 1
                    &&& (forall|i: int|
                        0 <= i < old(self).kitties@.len() ==> final(self).kitties@[i] == old(
                            self,
                        ).kitties@[i])
                    &&& final(self).kitties@[kitty_id as int].dna@ == combine_dna_seq(
                        old(self).kitties@[kitty_id_1 as int].dna@,
                        old(self).kitties@[kitty_id_2 as int].dna@,
                        random_value_spec(sender, env),
                    )
                    &&& final(self).kitties@[kitty_id as int].price == 0
                    &&& final(self).owned@ == append_spec(old(self).owned@, sender, kitty_id)
                },
                Err(e) => {
                    &&& *final(self) == *old(self)
                    &&& e == (if kitty_id_1 >= old(self).kitties@.len() || kitty_id_2 >= old(
                        self,
                    ).kitties@.len() {
                        Error::NotFound
                    } else if kitty_id_1 == kitty_id_2 {
                        Error::SameParent
                    } else {
                        Error::Overflow
                    })
                    &&& (kitty_id_1 >= old(self).kitties@.len() || kitty_id_2 >= old(
                        self,
                    ).kitties@.len() || kitty_id_1 == kitty_id_2 || old(self).kitties@.len()
                        == u32::MAX)
                },
            },
    {
        self.do_breed(sender, kitty_id_1, kitty_id_2, env)
    }

    fn do_breed(&mut self, sender: u64, kitty_id_1: u32, kitty_id_2: u32, env: TransitionEnv) -> (r:
        Result<u32, Error>)
        requires
            old(self).wf(),
        ensures
            final(self).wf(),
            match r {
                Ok(kitty_id) => {
                    &&& kitty_id_1 < old(self).kitties@.len()
                    &&& kitty_id_2 < old(self).kitties@.len()
                    &&& kitty_id_1 != kitty_id_2
                    &&& old(self).kitties@.len() < u32::MAX
                    &&& kitty_id == old(self).kitties@.len()
                    &&& final(self).kitties@.len() == old(self).kitties@.len() + 1
                    &&& (forall|i: int|
                        0 <= i < old(self).kitties@.len() ==> final(self).kitties@[i] == old(
                            self,
                        ).kitties@[i])
                    &&& final(self).kitties@[kitty_id as int].dna@ == combine_dna_seq(
                        old(self).kitties@[kitty_id_1 as int].dna@,
                        old(self).kitties@[kitty_id_2 as int].dna@,
                        random_value_spec(sender, env),
                    )
                    &&& final(self).kitties@[kitty_id as int].price == 0
                    &&& final(self).owned@ == append_spec(old(self).owned@, sender, kitty_id)
                },
                Err(e) => {
                    &&& *final(self) == *old(self)
                    &&& e == (if kitty_id_1 >= old(self).kitties@.len() || kitty_id_2 >= old(
                        self,
                    ).kitties@.len() {
                        Error::NotFound
                    } else if kitty_id_1 == kitty_id_2 {
                        Error::SameParent
                    } else {
                        Error::Overflow
                    })
                    &&& (kitty_id_1 >= old(self).kitties@.len() || kitty_id_2 >= old(
                        self,
                    ).kitties@.len() || kitty_id_1 == kitty_id_2 || old(self).kitties@.len()
                        == u32::MAX)
                },
            },
    {
        if kitty_id_1 as usize >= self.kitties.len() || kitty_id_2 as usize >= self.kitties.len() {
            return Err(Error::NotFound);
        }
        if kitty_id_1 == kitty_id_2 {
            return Err(Error::SameParent);
        }
        let kitty_id = match self.next_kitty_id() {
            Ok(id) => id,
            Err(e) => {
                return Err(e);
            },
        };
        let selector = random_value(sender, env);
        let new_dna = combine_dna_bytes(
            &self.kitties[kitty_id_1 as usize].dna,
            &self.kitties[kitty_id_2 as usize].dna,
            &selector,
        );
        self.insert_kitty(sender, kitty_id, Kitty { dna: new_dna, price: 0 });
        Ok(kitty_id)
    }

    /// Move `kitty_id` from `sender`'s list to `to`'s list.
    pub fn transfer(&mut self, sender: u64, to: u64, kitty_id: u32) -> (r: Result<(), Error>)
        requires
            old(self).wf(),
        ensures
            final(self).wf(),
            match r {
                Ok(()) => {
                    &&& kitty_id < old(self).kitties@.len()
                    &&& owns(old(self).owned@, sender, kitty_id)
                    &&& final(self).kitties == old(self).kitties
                    &&& final(self).owned@ == append_spec(
                        remove_spec(old(self).owned@, sender, kitty_id),
                        to,
                        kitty_id,
                    )
                },
                Err(e) => {
                    &&& *final(self) == *old(self)
                    &&& e == (if kitty_id >= old(self).kitties@.len() {
                        Error::NotFound
                    } else {
                        Error::NotOwner
                    })
                    &&& (kitty_id >= old(self).kitties@.len() || !owns(
                        old(self).owned@,
                        sender,
                        kitty_id,
                    ))
                },
            },
    {
        self.do_transfer(sender, to, kitty_id)
    }

    fn do_transfer(&mut self, from: u64, to: u64, kitty_id: u32) -> (r: Result<(), Error>)
        requires
            old(self).wf(),
        ensures
            final(self).wf(),
            match r {
                Ok(()) => {
                    &&& kitty_id < old(self).kitties@.len()
                    &&& owns(old(self).owned@, from, kitty_id)
                    &&& final(self).kitties == old(self).kitties
                    &&& final(self).owned@ == append_spec(
                        remove_spec(old(self).owned@, from, kitty_id),
                        to,
                        kitty_id,
                    )
                },
                Err(e) => {
                    &&& *final(self) == *old(self)
                    &&& e == (if kitty_id >= old(self).kitties@.len() {
                        Error::NotFound
                    } else {
                        Error::NotOwner
                    })
                    &&& (kitty_id >= old(self).kitties@.len() || !owns(
                        old(self).owned@,
                        from,
                        kitty_id,
                    ))
                },
            },
    {
        if kitty_id as usize >= self.kitties.len() {
            return Err(Error::NotFound);
        }
        if !self.owned.contains(from, kitty_id) {
            return Err(Error::NotOwner);
        }
        self.owned.remove(from, kitty_id);
        self.owned.append(to, kitty_id);
        proof {
            let m = old(self).owned@;
            let m1 = remove_spec(m, from, kitty_id);
            let r = self.owned@;
            lemma_remove_all_chains(m, from, kitty_id);
            assert forall|a: u64| !owns(m1, a, kitty_id) by {
                assert(owns(m1, a, kitty_id) <==> (owns(m, a, kitty_id) && !(a == from)));
                if owns(m, a, kitty_id) {
                    assert(owns(m, from, kitty_id));
                    assert(a == from);
                }
            }
            lemma_append_all_chains(m1, to, kitty_id);
            assert forall|a: u64, id: u32| #[trigger] owns(r, a, id) implies id
                < self.kitties@.len() by {
                assert(owns(r, a, id) <==> (owns(m1, a, id) || (a == to && id == kitty_id)));
                if owns(m1, a, id) {
                    assert(owns(m, a, id));
                }
            }
            assert forall|a: u64, b: u64, id: u32|
                owns(r, a, id) && owns(r, b, id) implies a == b by {
                assert(owns(r, a, id) <==> (owns(m1, a, id) || (a == to && id == kitty_id)));
                assert(owns(r, b, id) <==> (owns(m1, b, id) || (b == to && id == kitty_id)));
                if id == kitty_id {
                    assert(!owns(m1, a, id));
                    assert(!owns(m1, b, id));
                } else {
                    assert(owns(m1, a, id) <==> (owns(m, a, id) && !(a == from && id == kitty_id)));
                    assert(owns(m1, b, id) <==> (owns(m, b, id) && !(b == from && id == kitty_id)));
                }
            }
        }
        Ok(())
    }

    /// Overwrite the sale price of an entity `sender` owns.
    pub fn set_price(&mut self, sender: u64, kitty_id: u32, price: u64) -> (r: Result<(), Error>)
        requires
            old(self).wf(),
        ensures
            final(self).wf(),
            match r {
                Ok(()) => {
                    &&& kitty_id < old(self).kitties@.len()
                    &&& owns(old(self).owned@, sender, kitty_id)
                    &&& final(self).owned == old(self).owned
                    &&& final(self).kitties@.len() == old(self).kitties@.len()
                    &&& (forall|i: int|
                        0 <= i < old(self).kitties@.len() && i != kitty_id as int ==> final(self).kitties@[i] == old(self).kitties@[i])
                    &&& final(self).kitties@[kitty_id as int].dna == old(self).kitties@[kitty_id as int].dna
                    &&& final(self).kitties@[kitty_id as int].price == price
                },
                Err(e) => {
                    &&& *final(self) == *old(self)
                    &&& e == (if kitty_id >= old(self).kitties@.len() {
                        Error::NotFound
                    } else {
                        Error::NotOwner
                    })
                    &&& (kitty_id >= old(self).kitties@.len() || !owns(
                        old(self).owned@,
                        sender,
                        kitty_id,
                    ))
                },
            },
    {
        if kitty_id as usize >= self.kitties.len() {
            return Err(Error::NotFound);
        }
        if !self.owned.contains(sender, kitty_id) {
            return Err(Error::NotOwner);
        }
        self.kitties[kitty_id as usize].price = price;
        Ok(())
    }

    /// Buy `kitty_id` from `owner` at its listed price: pay through the
    /// ledger, then move the entity to `sender`'s list.  A refused payment
    /// aborts the whole transition with no ownership change.
    pub fn buy_kitty(&mut self, sender: u64, owner: u64, kitty_id: u32, ledger: &mut Ledger) -> (r:
        Result<(), Error>)
        requires
            old(self).wf(),
            old(ledger).wf(),
        ensures
            final(self).wf(),
            final(ledger).wf(),
            match r {
                Ok(()) => {
                    &&& kitty_id < old(self).kitties@.len()
                    &&& owns(old(self).owned@, owner, kitty_id)
                    &&& final(self).kitties == old(self).kitties
                    &&& final(self).owned@ == append_spec(
                        remove_spec(old(self).owned@, owner, kitty_id),
                        sender,
                        kitty_id,
                    )
                    &&& balance_in(old(ledger)@, sender) >= old(self).kitties@[kitty_id as int].price
                    &&& (sender == owner ==> *final(ledger) == *old(ledger))
                    &&& (sender != owner ==> {
                        let price = old(self).kitties@[kitty_id as int].price;
                        &&& balance_in(final(ledger)@, sender) == balance_in(old(ledger)@, sender)
                            - price
                        &&& balance_in(final(ledger)@, owner) == balance_in(old(ledger)@, owner)
                            + price
                    })
                    &&& (forall|a: u64|
                        a != sender && a != owner ==> balance_in(final(ledger)@, a) == balance_in(
                            old(ledger)@,
                            a,
                        ))
                },
                Err(e) => {
                    &&& *final(self) == *old(self)
                    &&& *final(ledger) == *old(ledger)
                    &&& (kitty_id >= old(self).kitties@.len() || !owns(
                        old(self).owned@,
                        owner,
                        kitty_id,
                    ) || balance_in(old(ledger)@, sender) < old(self).kitties@[kitty_id as int].price
                        || (sender != owner && balance_in(old(ledger)@, owner) + old(
                        self,
                    ).kitties@[kitty_id as int].price > u64::MAX))
                    &&& e == (if kitty_id >= old(self).kitties@.len() {
                        Error::NotFound
                    } else if !owns(old(self).owned@, owner, kitty_id) {
                        Error::NotOwner
                    } else if balance_in(old(ledger)@, sender) < old(self).kitties@[kitty_id as int].price {
                        Error::InsufficientFunds
                    } else {
                        Error::Overflow
                    })
                },
            },
    {
        if kitty_id as usize >= self.kitties.len() {
            return Err(Error::NotFound);
        }
        if !self.owned.contains(owner, kitty_id) {
            return Err(Error::NotOwner);
        }
        let price = self.kitties[kitty_id as usize].price;
        match ledger.transfer_value(sender, owner, price) {
            Ok(()) => {},
            Err(e) => {
                return Err(e);
            },
        }
        match self.do_transfer(owner, sender, kitty_id) {
            Ok(()) => Ok(()),
            Err(e) => {
                proof {
                    assert(false);
                }
                Err(e)
            },
        }
    }
}

} // verus!
