use kitties::owned::KittyLinkedItem;
use kitties::owned::OwnedKitties;

const ALICE: u64 = 1;
const BOB: u64 = 2;

fn item(prev: Option<u32>, next: Option<u32>) -> KittyLinkedItem {
    KittyLinkedItem { prev, next }
}

#[test]
fn read_absent_yields_sentinel() {
    let index = OwnedKitties::new();
    assert_eq!(index.read(ALICE, None), item(None, None));
    assert_eq!(index.read(ALICE, Some(7)), item(None, None));
    assert!(!index.contains(ALICE, 7));
}

#[test]
fn append_one_links_head_both_ways() {
    let mut index = OwnedKitties::new();
    index.append(ALICE, 5);
    assert_eq!(index.read(ALICE, None), item(Some(5), Some(5)));
    assert_eq!(index.read(ALICE, Some(5)), item(None, None));
    assert!(index.contains(ALICE, 5));
    assert!(!index.contains(BOB, 5));
}

#[test]
fn append_two_keeps_insertion_order() {
    let mut index = OwnedKitties::new();
    index.append(ALICE, 1);
    index.append(ALICE, 2);
    // head.next is the oldest entity, head.prev the newest
    assert_eq!(index.read(ALICE, None), item(Some(2), Some(1)));
    assert_eq!(index.read(ALICE, Some(1)), item(None, Some(2)));
    assert_eq!(index.read(ALICE, Some(2)), item(Some(1), None));
}

#[test]
fn remove_middle_splices_neighbours() {
    let mut index = OwnedKitties::new();
    index.append(ALICE, 1);
    index.append(ALICE, 2);
    index.append(ALICE, 3);
    index.remove(ALICE, 2);
    assert!(!index.contains(ALICE, 2));
    assert_eq!(index.read(ALICE, None), item(Some(3), Some(1)));
    assert_eq!(index.read(ALICE, Some(1)), item(None, Some(3)));
    assert_eq!(index.read(ALICE, Some(3)), item(Some(1), None));
}

#[test]
fn remove_only_element_empties_list() {
    let mut index = OwnedKitties::new();
    index.append(ALICE, 9);
    index.remove(ALICE, 9);
    assert!(!index.contains(ALICE, 9));
    assert_eq!(index.read(ALICE, None), item(None, None));
}

#[test]
fn remove_twice_is_a_no_op() {
    let mut index = OwnedKitties::new();
    index.append(ALICE, 1);
    index.append(ALICE, 2);
    index.append(ALICE, 3);
    index.remove(ALICE, 2);
    let head = index.read(ALICE, None);
    let first = index.read(ALICE, Some(1));
    let last = index.read(ALICE, Some(3));
    index.remove(ALICE, 2);
    assert_eq!(index.read(ALICE, None), head);
    assert_eq!(index.read(ALICE, Some(1)), first);
    assert_eq!(index.read(ALICE, Some(3)), last);
    assert!(!index.contains(ALICE, 2));
}

#[test]
fn append_then_remove_restores_prior_links() {
    let mut index = OwnedKitties::new();
    index.append(ALICE, 1);
    index.append(ALICE, 2);
    let head = index.read(ALICE, None);
    let first = index.read(ALICE, Some(1));
    let second = index.read(ALICE, Some(2));
    index.append(ALICE, 7);
    index.remove(ALICE, 7);
    assert!(!index.contains(ALICE, 7));
    assert_eq!(index.read(ALICE, None), head);
    assert_eq!(index.read(ALICE, Some(1)), first);
    assert_eq!(index.read(ALICE, Some(2)), second);
}

#[test]
fn lists_of_different_accounts_are_independent() {
    let mut index = OwnedKitties::new();
    index.append(ALICE, 1);
    index.append(BOB, 2);
    index.remove(ALICE, 1);
    assert!(index.contains(BOB, 2));
    assert_eq!(index.read(BOB, None), item(Some(2), Some(2)));
    assert_eq!(index.read(ALICE, None), item(None, None));
}
