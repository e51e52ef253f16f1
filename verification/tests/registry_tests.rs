use kitties::Error;
use kitties::dna::combine_dna;
use kitties::ledger::Ledger;
use kitties::random::TransitionEnv;
use kitties::random::random_value;
use kitties::registry::Module;

const ALICE: u64 = 1;
const BOB: u64 = 2;
const CAROL: u64 = 3;

fn env() -> TransitionEnv {
    TransitionEnv { random_seed: 42, extrinsic_index: 0, block_number: 1 }
}

#[test]
fn random_value_is_deterministic_and_128_bit() {
    let a = random_value(ALICE, env());
    let b = random_value(ALICE, env());
    assert_eq!(a.len(), 16);
    assert_eq!(a, b);
    let c = random_value(BOB, env());
    assert_ne!(a, c);
    let d = random_value(ALICE, TransitionEnv { random_seed: 43, extrinsic_index: 0, block_number: 1 });
    assert_ne!(a, d);
}

#[test]
fn create_first_kitty() {
    let mut module = Module::new();
    assert_eq!(module.kitties_count(), 0);
    let id = module.create(ALICE, env()).unwrap();
    assert_eq!(id, 0);
    assert_eq!(module.kitties_count(), 1);
    assert!(module.is_owner(ALICE, 0));
    let kitty = module.kitty(0).unwrap();
    assert_eq!(kitty.price, 0);
    assert_eq!(kitty.dna, random_value(ALICE, env()));
}

#[test]
fn kitty_lookup_absent() {
    let module = Module::new();
    assert!(module.kitty(0).is_none());
}

#[test]
fn breed_needs_no_ownership_of_parents() {
    let mut module = Module::new();
    assert_eq!(module.create(ALICE, env()).unwrap(), 0);
    assert_eq!(module.create(BOB, env()).unwrap(), 1);
    let child = module.breed(CAROL, 0, 1, env()).unwrap();
    assert_eq!(child, 2);
    assert_eq!(module.kitties_count(), 3);
    assert!(module.is_owner(CAROL, 2));
    assert!(!module.is_owner(CAROL, 0));
    assert!(!module.is_owner(CAROL, 1));

    let selector = random_value(CAROL, env());
    let dna1 = module.kitty(0).unwrap().dna.clone();
    let dna2 = module.kitty(1).unwrap().dna.clone();
    let child_dna = &module.kitty(2).unwrap().dna;
    assert_eq!(child_dna.len(), 16);
    for i in 0..16 {
        assert_eq!(child_dna[i], combine_dna(dna1[i], dna2[i], selector[i]));
    }
}

#[test]
fn breed_rejects_missing_parent() {
    let mut module = Module::new();
    module.create(ALICE, env()).unwrap();
    assert_eq!(module.breed(ALICE, 0, 5, env()), Err(Error::NotFound));
    assert_eq!(module.breed(ALICE, 5, 0, env()), Err(Error::NotFound));
    assert_eq!(module.kitties_count(), 1);
}

#[test]
fn breed_rejects_same_parent() {
    let mut module = Module::new();
    module.create(ALICE, env()).unwrap();
    assert_eq!(module.breed(ALICE, 0, 0, env()), Err(Error::SameParent));
    assert_eq!(module.kitties_count(), 1);
}

#[test]
fn transfer_moves_ownership_then_old_owner_cannot_price() {
    let mut module = Module::new();
    module.create(ALICE, env()).unwrap();
    assert_eq!(module.transfer(ALICE, BOB, 0), Ok(()));
    assert!(module.is_owner(BOB, 0));
    assert!(!module.is_owner(ALICE, 0));
    assert_eq!(module.set_price(ALICE, 0, 100), Err(Error::NotOwner));
    assert_eq!(module.kitty(0).unwrap().price, 0);
}

#[test]
fn transfer_rejects_missing_and_unowned() {
    let mut module = Module::new();
    module.create(ALICE, env()).unwrap();
    assert_eq!(module.transfer(ALICE, BOB, 7), Err(Error::NotFound));
    assert_eq!(module.transfer(BOB, CAROL, 0), Err(Error::NotOwner));
    assert!(module.is_owner(ALICE, 0));
}

#[test]
fn set_price_by_owner() {
    let mut module = Module::new();
    module.create(BOB, env()).unwrap();
    assert_eq!(module.set_price(BOB, 0, 100), Ok(()));
    assert_eq!(module.kitty(0).unwrap().price, 100);
    assert_eq!(module.set_price(BOB, 1, 5), Err(Error::NotFound));
}

#[test]
fn buy_failure_leaves_state_untouched() {
    let mut module = Module::new();
    let mut ledger = Ledger::new();
    module.create(BOB, env()).unwrap();
    module.set_price(BOB, 0, 100).unwrap();
    ledger.set_balance(CAROL, 10);
    assert_eq!(module.buy_kitty(CAROL, BOB, 0, &mut ledger), Err(Error::InsufficientFunds));
    assert!(module.is_owner(BOB, 0));
    assert!(!module.is_owner(CAROL, 0));
    assert_eq!(ledger.balance_of(CAROL), 10);
    assert_eq!(ledger.balance_of(BOB), 0);
}

#[test]
fn buy_success_moves_entity_and_value() {
    let mut module = Module::new();
    let mut ledger = Ledger::new();
    module.create(BOB, env()).unwrap();
    module.set_price(BOB, 0, 100).unwrap();
    ledger.set_balance(CAROL, 150);
    assert_eq!(module.buy_kitty(CAROL, BOB, 0, &mut ledger), Ok(()));
    assert!(module.is_owner(CAROL, 0));
    assert!(!module.is_owner(BOB, 0));
    assert_eq!(ledger.balance_of(CAROL), 50);
    assert_eq!(ledger.balance_of(BOB), 100);
}

#[test]
fn buy_checks_the_named_owner() {
    let mut module = Module::new();
    let mut ledger = Ledger::new();
    module.create(BOB, env()).unwrap();
    ledger.set_balance(CAROL, 10);
    assert_eq!(module.buy_kitty(CAROL, ALICE, 0, &mut ledger), Err(Error::NotOwner));
    assert_eq!(module.buy_kitty(CAROL, BOB, 7, &mut ledger), Err(Error::NotFound));
    assert!(module.is_owner(BOB, 0));
    assert_eq!(ledger.balance_of(CAROL), 10);
}

#[test]
fn ledger_transfer_value_errors() {
    let mut ledger = Ledger::new();
    ledger.set_balance(ALICE, u64::MAX);
    ledger.set_balance(BOB, 5);
    assert_eq!(ledger.transfer_value(BOB, ALICE, 5), Err(Error::Overflow));
    assert_eq!(ledger.transfer_value(CAROL, BOB, 1), Err(Error::InsufficientFunds));
    assert_eq!(ledger.balance_of(ALICE), u64::MAX);
    assert_eq!(ledger.balance_of(BOB), 5);
    assert_eq!(ledger.balance_of(CAROL), 0);
}

#[test]
fn ledger_transfer_value_moves_funds() {
    let mut ledger = Ledger::new();
    ledger.set_balance(ALICE, 30);
    assert_eq!(ledger.transfer_value(ALICE, BOB, 20), Ok(()));
    assert_eq!(ledger.balance_of(ALICE), 10);
    assert_eq!(ledger.balance_of(BOB), 20);
    // a self-payment needs funds but changes nothing
    assert_eq!(ledger.transfer_value(ALICE, ALICE, 10), Ok(()));
    assert_eq!(ledger.balance_of(ALICE), 10);
    assert_eq!(ledger.transfer_value(ALICE, ALICE, 11), Err(Error::InsufficientFunds));
}

#[test]
fn identifiers_are_dense_and_increasing() {
    let mut module = Module::new();
    for expected in 0u32..5u32 {
        let id = module.create(ALICE, env()).unwrap();
        assert_eq!(id, expected);
        assert_eq!(module.kitties_count(), expected + 1);
    }
}
