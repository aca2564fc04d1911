use vstd::prelude::*;

verus! {

/// Mixes one byte of two parents' DNA: where a bit of `selector` is set the
/// child takes the bit of `dna1`, elsewhere the bit of `dna2`.
pub open spec fn spec_combine_dna(dna1: u8, dna2: u8, selector: u8) -> u8 {
    (selector & dna1) | (!selector & dna2)
}

/// Mixes one byte of two parents' DNA under a selector byte.
pub fn combine_dna(dna1: u8, dna2: u8, selector: u8) -> (r: u8)
    ensures
        r == spec_combine_dna(dna1, dna2, selector),
{
    (selector & dna1) | (!selector & dna2)
}

/// Every bit of a combined byte comes from the first parent where the selector
/// bit is set, and from the second parent where it is clear.
pub proof fn lemma_combine_dna_takes_selected_bits(dna1: u8, dna2: u8, selector: u8)
    ensures
        spec_combine_dna(dna1, dna2, selector) & selector == dna1 & selector,
        spec_combine_dna(dna1, dna2, selector) & !selector == dna2 & !selector,
{
    assert((((selector & dna1) | (!selector & dna2)) & selector) == dna1 & selector) by (bit_vector);
    assert((((selector & dna1) | (!selector & dna2)) & !selector) == dna2 & !selector) by (bit_vector);
}

/// The DNA of a child: each byte of the parents' DNA mixed under the
/// matching byte of `selector`.
pub open spec fn spec_mix_dna(dna1: Seq<u8>, dna2: Seq<u8>, selector: Seq<u8>) -> Seq<u8> {
    Seq::new(16, |i: int| spec_combine_dna(dna1[i], dna2[i], selector[i]))
}

/// Mixes the DNA of two parents under a selector, byte by byte.
pub fn mix_dna(dna1: &[u8; 16], dna2: &[u8; 16], selector: &[u8; 16]) -> (r: [u8; 16])
    ensures
        r@ == spec_mix_dna(dna1@, dna2@, selector@),
{
    let mut new_dna = [0u8; 16];
    for i in 0..16
        invariant
            forall|j: int| 0 <= j < i ==> new_dna@[j] == spec_combine_dna(dna1@[j], dna2@[j], selector@[j]),
    {
        new_dna[i] = combine_dna(dna1[i], dna2[i], selector[i]);
    }
    assert(new_dna@ =~= spec_mix_dna(dna1@, dna2@, selector@));
    new_dna
}

} // verus!
