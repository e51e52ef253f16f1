use vstd::prelude::*;

verus! {

/// One byte of a child's DNA: each bit of `selector` that is set picks the
/// corresponding bit from `dna1`, each clear bit picks it from `dna2`.
pub open spec fn combine_dna_byte(dna1: u8, dna2: u8, selector: u8) -> u8 {
    (selector & dna1) | (!selector & dna2)
}

/// Combine one byte of two parents' DNA under one selector byte.
pub fn combine_dna(dna1: u8, dna2: u8, selector: u8) -> (r: u8)
    ensures
        r == combine_dna_byte(dna1, dna2, selector),
{
    (selector & dna1) | (!selector & dna2)
}

/// Whole-DNA combination, byte by byte.
pub open spec fn combine_dna_seq(dna1: Seq<u8>, dna2: Seq<u8>, selector: Seq<u8>) -> Seq<u8> {
    Seq::new(dna1.len(), |i: int| combine_dna_byte(dna1[i], dna2[i], selector[i]))
}

/// Combine two parents' DNA under a selector of the same length.
pub fn combine_dna_bytes(dna1: &Vec<u8>, dna2: &Vec<u8>, selector: &Vec<u8>) -> (r: Vec<u8>)
    requires
        dna2@.len() == dna1@.len(),
        selector@.len() == dna1@.len(),
    ensures
        r@ == combine_dna_seq(dna1@, dna2@, selector@),
{
    let mut r: Vec<u8> = Vec::new();
    let mut i: usize = 0;
    while i < dna1.len()
        invariant
            i <= dna1@.len(),
            dna2@.len() == dna1@.len(),
            selector@.len() == dna1@.len(),
            r@.len() == i,
            forall|j: int| 0 <= j < i ==> r@[j] == combine_dna_byte(dna1@[j], dna2@[j], selector@[j]),
        decreases dna1@.len() - i,
    {
        r.push(combine_dna(dna1[i], dna2[i], selector[i]));
        i = i + 1;
    }
    proof {
        assert(r@ =~= combine_dna_seq(dna1@, dna2@, selector@));
    }
    r
}

/// An all-zero selector byte yields the second parent's byte.
pub proof fn lemma_combine_byte_zero(a: u8, b: u8)
    ensures
        combine_dna_byte(a, b, 0) == b,
{
    assert(((0u8 & a) | (!0u8 & b)) == b) by (bit_vector);
}

/// An all-one selector byte yields the first parent's byte.
pub proof fn lemma_combine_byte_ones(a: u8, b: u8)
    ensures
        combine_dna_byte(a, b, 0xff) == a,
{
    assert(((0xffu8 & a) | (!0xffu8 & b)) == a) by (bit_vector);
}

/// Equal parent bytes combine to themselves under any selector.
pub proof fn lemma_combine_byte_same(a: u8, s: u8)
    ensures
        combine_dna_byte(a, a, s) == a,
{
    assert(((s & a) | (!s & a)) == a) by (bit_vector);
}

/// Combining under the all-zero selector yields exactly the second parent.
pub proof fn lemma_combine_dna_selector_zero(dna1: Seq<u8>, dna2: Seq<u8>, selector: Seq<u8>)
    requires
        dna2.len() == dna1.len(),
        selector.len() == dna1.len(),
        forall|i: int| 0 <= i < selector.len() ==> selector[i] == 0u8,
    ensures
        combine_dna_seq(dna1, dna2, selector) == dna2,
{
    assert forall|i: int| 0 <= i < dna1.len() implies combine_dna_seq(dna1, dna2, selector)[i]
        == dna2[i] by {
        lemma_combine_byte_zero(dna1[i], dna2[i]);
    }
    assert(combine_dna_seq(dna1, dna2, selector) =~= dna2);
}

/// Combining under the all-one selector yields exactly the first parent.
pub proof fn lemma_combine_dna_selector_ones(dna1: Seq<u8>, dna2: Seq<u8>, selector: Seq<u8>)
    requires
        dna2.len() == dna1.len(),
        selector.len() == dna1.len(),
        forall|i: int| 0 <= i < selector.len() ==> selector[i] == 0xffu8,
    ensures
        combine_dna_seq(dna1, dna2, selector) == dna1,
{
    assert forall|i: int| 0 <= i < dna1.len() implies combine_dna_seq(dna1, dna2, selector)[i]
        == dna1[i] by {
        lemma_combine_byte_ones(dna1[i], dna2[i]);
    }
    assert(combine_dna_seq(dna1, dna2, selector) =~= dna1);
}

/// Combining an entity's DNA with itself yields that DNA under any selector.
pub proof fn lemma_combine_dna_equal_parents(dna: Seq<u8>, selector: Seq<u8>)
    requires
        selector.len() == dna.len(),
    ensures
        combine_dna_seq(dna, dna, selector) == dna,
{
    assert forall|i: int| 0 <= i < dna.len() implies combine_dna_seq(dna, dna, selector)[i]
        == dna[i] by {
        lemma_combine_byte_same(dna[i], selector[i]);
    }
    assert(combine_dna_seq(dna, dna, selector) =~= dna);
}

} // verus!
