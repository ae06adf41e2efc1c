//! The asset record and the genetic crossover that derives a child genome
//! from two parent genomes, bit by bit, under a random selector mask.

use vstd::prelude::*;

verus! {

/// One asset: a uniquely identified record whose only payload is an
/// immutable 16-byte (128-bit) genome.
#[derive(Clone, Copy, PartialEq, Eq, Debug)]
pub struct Kitty(pub [u8; 16]);

/// One byte of the crossover: each bit of the result is taken from `a`
/// where the selector bit is set, and from `b` where it is clear.
pub open spec fn cross_byte(a: u8, b: u8, sel: u8) -> u8 {
    (a & sel) | (b & !sel)
}

/// The crossover of two equal-length byte sequences under a selector mask,
/// applied position by position.
pub open spec fn crossed(a: Seq<u8>, b: Seq<u8>, sel: Seq<u8>) -> Seq<u8> {
    Seq::new(a.len(), |i: int| cross_byte(a[i], b[i], sel[i]))
}

/// Derive a child genome: for each byte position `i`, the result is
/// `(a[i] & sel[i]) | (b[i] & !sel[i])`, so each output bit is inherited
/// from exactly one parent, chosen by the selector bit.
pub fn cross(a: &[u8; 16], b: &[u8; 16], sel: &[u8; 16]) -> (r: [u8; 16])
    ensures
        r@ == crossed(a@, b@, sel@),
{
    let mut out: [u8; 16] = [0u8; 16];
    let mut i: usize = 0;
    while i < 16
        invariant
            i <= 16,
            out.len() == 16,
            forall|j: int| 0 <= j < i ==> out[j] == cross_byte(a@[j], b@[j], sel@[j]),
        decreases 16 - i,
    {
        out[i] = (a[i] & sel[i]) | (b[i] & !sel[i]);
        i = i + 1;
    }
    proof {
        assert(out@ =~= crossed(a@, b@, sel@));
    }
    out
}

/// A selector bit that is set passes the first parent's bit through
/// unchanged, so an all-ones selector returns the first parent exactly.
proof fn lemma_cross_byte_ones(a: u8, b: u8)
    ensures
        cross_byte(a, b, 0xffu8) == a,
{
    assert((a & 0xffu8) | (b & !0xffu8) == a) by (bit_vector);
}

/// A selector bit that is clear passes the second parent's bit through
/// unchanged, so an all-zero selector returns the second parent exactly.
proof fn lemma_cross_byte_zeros(a: u8, b: u8)
    ensures
        cross_byte(a, b, 0x00u8) == b,
{
    assert((a & 0x00u8) | (b & !0x00u8) == b) by (bit_vector);
}

/// Crossover determinism, first half: with an all-ones selector the
/// crossover yields exactly the first parent.
pub proof fn lemma_cross_all_ones(a: Seq<u8>, b: Seq<u8>, sel: Seq<u8>)
    requires
        b.len() == a.len(),
        sel.len() == a.len(),
        forall|i: int| 0 <= i < sel.len() ==> sel[i] == 0xffu8,
    ensures
        crossed(a, b, sel) == a,
{
    assert forall|i: int| 0 <= i < a.len() implies crossed(a, b, sel)[i] == a[i] by {
        lemma_cross_byte_ones(a[i], b[i]);
    }
    assert(crossed(a, b, sel) =~= a);
}

/// Crossover determinism, second half: with an all-zero selector the
/// crossover yields exactly the second parent.
pub proof fn lemma_cross_all_zeros(a: Seq<u8>, b: Seq<u8>, sel: Seq<u8>)
    requires
        b.len() == a.len(),
        sel.len() == a.len(),
        forall|i: int| 0 <= i < sel.len() ==> sel[i] == 0x00u8,
    ensures
        crossed(a, b, sel) == b,
{
    assert forall|i: int| 0 <= i < a.len() implies crossed(a, b, sel)[i] == b[i] by {
        lemma_cross_byte_zeros(a[i], b[i]);
    }
    assert(crossed(a, b, sel) =~= b);
}

} // verus!
