use vstd::prelude::*;

verus! {

/// Bit `b` of the contention mask `c`.
pub open spec fn bit(c: u8, b: u8) -> bool {
    (c >> b) & 1u8 == 1u8
}

pub proof fn lemma_bit_or(c: u8, k: u8, b: u8)
    by (bit_vector)
    requires
        k < 8,
        b < 8,
    ensures
        bit(c | (1u8 << k), b) == (bit(c, b) || b == k),
{
}

pub proof fn lemma_bit_zero(b: u8)
    by (bit_vector)
    requires
        b < 8,
    ensures
        !bit(0u8, b),
{
}

/// A mask equals a single bit exactly when that is its only bit set.
pub proof fn lemma_single_bit(c: u8, k: u8)
    by (bit_vector)
    requires
        k < 8,
    ensures
        (c == (1u8 << k)) == (bit(c, 0) == (k == 0) && bit(c, 1) == (k == 1) && bit(c, 2) == (k == 2)
            && bit(c, 3) == (k == 3) && bit(c, 4) == (k == 4) && bit(c, 5) == (k == 5)
            && bit(c, 6) == (k == 6) && bit(c, 7) == (k == 7)),
{
}

/// A mask equals the union of two bits exactly when those are its only bits set.
pub proof fn lemma_two_bits(c: u8, k: u8, t: u8)
    by (bit_vector)
    requires
        k < 8,
        t < 8,
    ensures
        (c == ((1u8 << k) | (1u8 << t))) == (bit(c, 0) == (k == 0 || t == 0) && bit(c, 1) == (k == 1 || t == 1)
            && bit(c, 2) == (k == 2 || t == 2) && bit(c, 3) == (k == 3 || t == 3)
            && bit(c, 4) == (k == 4 || t == 4) && bit(c, 5) == (k == 5 || t == 5)
            && bit(c, 6) == (k == 6 || t == 6) && bit(c, 7) == (k == 7 || t == 7)),
{
}

pub proof fn lemma_low_bits()
    by (bit_vector)
    ensures
        (1u8 << 0u8) == 1u8,
        (1u8 << 1u8) == 2u8,
        (1u8 << 2u8) == 4u8,
{
}

/// Whether the agents marked in `counter` are only agent `idx`, or `idx` and the
/// its teammate `mate`.
pub fn check_counter(counter: u8, mate: u8, idx: u8) -> (r: bool)
    requires
        mate < 8,
        idx < 8,
    ensures
        r == (counter == (1u8 << idx) || counter == ((1u8 << idx) | (1u8 << mate))),
        bit(counter, idx) ==> (r <==> forall|b: u8| b < 8 && #[trigger] bit(counter, b) ==> b == idx || b == mate),
{
    proof {
        lemma_single_bit(counter, idx);
        lemma_two_bits(counter, idx, mate);
        if bit(counter, idx) && (forall|b: u8| b < 8 && #[trigger] bit(counter, b) ==> b == idx || b == mate) {
            assert(bit(counter, 0) ==> 0 == idx || 0 == mate);
            assert(bit(counter, 1) ==> 1 == idx || 1 == mate);
            assert(bit(counter, 2) ==> 2 == idx || 2 == mate);
            assert(bit(counter, 3) ==> 3 == idx || 3 == mate);
            assert(bit(counter, 4) ==> 4 == idx || 4 == mate);
            assert(bit(counter, 5) ==> 5 == idx || 5 == mate);
            assert(bit(counter, 6) ==> 6 == idx || 6 == mate);
            assert(bit(counter, 7) ==> 7 == idx || 7 == mate);
        }
    }
    counter == (1u8 << idx) || counter == ((1u8 << idx) | (1u8 << mate))
}

} // verus!
