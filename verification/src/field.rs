//! Elements of the BLS12-381 scalar field, carried in verified code as their
//! canonical 32-byte little-endian representations.

use vstd::bytes::lemma_auto_spec_u64_to_from_le_bytes;
use vstd::bytes::spec_u64_to_le_bytes;
use vstd::bytes::u64_to_le_bytes;
use vstd::prelude::*;

verus! {

/// The canonical representation of the field element that a 64-bit integer
/// injects to: the integer's eight little-endian bytes followed by
/// twenty-four zero bytes.
pub open spec fn fe(n: u64) -> Seq<u8> {
    spec_u64_to_le_bytes(n) + Seq::new(24, |i: int| 0u8)
}

pub proof fn lemma_fe_len(n: u64)
    ensures
        fe(n).len() == 32,
{
    lemma_auto_spec_u64_to_from_le_bytes();
}

/// Distinct integers inject to distinct field elements: the first eight
/// bytes of the representation decode back to the integer.
pub proof fn lemma_fe_injective(a: u64, b: u64)
    requires
        fe(a) == fe(b),
    ensures
        a == b,
{
    lemma_auto_spec_u64_to_from_le_bytes();
    assert(spec_u64_to_le_bytes(a) =~= fe(a).subrange(0, 8));
    assert(spec_u64_to_le_bytes(b) =~= fe(b).subrange(0, 8));
}

/// Builds the canonical representation of the field element a 64-bit
/// integer injects to.
pub fn fe_from_u64(n: u64) -> (r: Vec<u8>)
    ensures
        r@ == fe(n),
{
    let mut r = u64_to_le_bytes(n);
    proof {
        assert(r@ =~= spec_u64_to_le_bytes(n) + Seq::new(0, |k: int| 0u8));
    }
    let mut i: usize = 0;
    while i < 24
        invariant
            i <= 24,
            r@ == spec_u64_to_le_bytes(n) + Seq::new(i as nat, |k: int| 0u8),
        decreases 24 - i,
    {
        r.push(0u8);
        proof {
            assert(r@ =~= spec_u64_to_le_bytes(n) + Seq::new((i + 1) as nat, |k: int| 0u8));
        }
        i += 1;
    }
    proof {
        assert(r@ =~= fe(n));
    }
    r
}

} // verus!
