use kitties::dna::combine_dna;
use kitties::dna::combine_dna_bytes;

fn bytes(b: u8) -> Vec<u8> {
    vec![b; 16]
}

#[test]
fn combine_byte_zero_selector_takes_second_parent() {
    assert_eq!(combine_dna(0xab, 0xcd, 0x00), 0xcd);
    assert_eq!(combine_dna(0xff, 0x00, 0x00), 0x00);
}

#[test]
fn combine_byte_full_selector_takes_first_parent() {
    assert_eq!(combine_dna(0xab, 0xcd, 0xff), 0xab);
    assert_eq!(combine_dna(0x00, 0xff, 0xff), 0x00);
}

#[test]
fn combine_byte_equal_parents_unchanged() {
    assert_eq!(combine_dna(0x5a, 0x5a, 0x33), 0x5a);
    assert_eq!(combine_dna(0x5a, 0x5a, 0xc8), 0x5a);
}

#[test]
fn combine_byte_mixes_nibbles() {
    // high nibble from the first parent, low nibble from the second
    assert_eq!(combine_dna(0x12, 0x34, 0xf0), 0x14);
}

#[test]
fn combine_bytes_zero_selector_yields_second_parent() {
    let child = combine_dna_bytes(&bytes(0xaa), &bytes(0x55), &bytes(0x00));
    assert_eq!(child, bytes(0x55));
}

#[test]
fn combine_bytes_full_selector_yields_first_parent() {
    let child = combine_dna_bytes(&bytes(0xaa), &bytes(0x55), &bytes(0xff));
    assert_eq!(child, bytes(0xaa));
}

#[test]
fn combine_bytes_equal_parents_unchanged() {
    let parent: Vec<u8> = (0u8..16u8).collect();
    let selector: Vec<u8> = (100u8..116u8).collect();
    let child = combine_dna_bytes(&parent, &parent, &selector);
    assert_eq!(child, parent);
}

#[test]
fn combine_bytes_per_position() {
    let dna1: Vec<u8> = (0u8..16u8).collect();
    let dna2: Vec<u8> = (16u8..32u8).collect();
    let selector: Vec<u8> = (200u8..216u8).collect();
    let child = combine_dna_bytes(&dna1, &dna2, &selector);
    assert_eq!(child.len(), 16);
    for i in 0..16 {
        assert_eq!(child[i], combine_dna(dna1[i], dna2[i], selector[i]));
    }
}
