//! The fixed-arity Poseidon hash over the BLS12-381 scalar field, as
//! implemented by `neptune`, named but not restated: each digest is a pure
//! function of its preimage under the default parameter set for its arity.

use ff::Field;
use ff::PrimeField;
use generic_array::typenum::U4;
use generic_array::typenum::U6;
use generic_array::typenum::U8;
use neptune::poseidon::PoseidonConstants;
use once_cell::sync::OnceCell;
use vstd::prelude::*;

verus! {

/// The Poseidon parameter sets for arities 4, 6 and 8, built lazily on
/// first use and shared thereafter.  Verus sees the struct as opaque.
#[verifier::external_body]
pub struct HashConstants {
    c4: OnceCell<PoseidonConstants<blstrs::Scalar, U4>>,
    c6: OnceCell<PoseidonConstants<blstrs::Scalar, U6>>,
    c8: OnceCell<PoseidonConstants<blstrs::Scalar, U8>>,
}

/// The Poseidon digest of a 4-element preimage.  Elements and result are
/// carried as canonical 32-byte representations; an element whose bytes are
/// not a canonical representation decodes as zero.  The digest is a pure
/// function of the preimage bytes and is not stated further.
pub uninterp spec fn poseidon4_of(preimage: Seq<Seq<u8>>) -> Seq<u8>;

/// The Poseidon digest of a 6-element preimage; see `poseidon4_of`.
pub uninterp spec fn poseidon6_of(preimage: Seq<Seq<u8>>) -> Seq<u8>;

/// The Poseidon digest of an 8-element preimage; see `poseidon4_of`.
pub uninterp spec fn poseidon8_of(preimage: Seq<Seq<u8>>) -> Seq<u8>;

/// Relies on `once_cell::sync::OnceCell::new`: empty cells, to be filled on
/// first use.
#[verifier::external_body]
pub(crate) fn constants_new() -> HashConstants {
    HashConstants { c4: OnceCell::new(), c6: OnceCell::new(), c8: OnceCell::new() }
}

/// Relies on neptune's `Poseidon::new_with_preimage(..).hash()`: a pure
/// function of the preimage under the arity-4 parameter set, which
/// `PoseidonConstants::new` builds deterministically.  The result is
/// returned through `PrimeField::to_repr`, 32 canonical bytes.
#[verifier::external_body]
pub(crate) fn poseidon_hash4(c: &HashConstants, preimage: &Vec<Vec<u8>>) -> (r: Vec<u8>)
    requires
        preimage.deep_view().len() == 4,
    ensures
        r@ == poseidon4_of(preimage.deep_view()),
        r@.len() == 32,
{
    let constants = c.c4.get_or_init(PoseidonConstants::new);
    let elems: Vec<blstrs::Scalar> = preimage
        .iter()
        .map(|v| {
            let mut a = [0u8; 32];
            for (i, b) in v.iter().take(32).enumerate() {
                a[i] = *b;
            }
            Option::from(blstrs::Scalar::from_repr(a)).unwrap_or(blstrs::Scalar::ZERO)
        })
        .collect();
    neptune::Poseidon::new_with_preimage(&elems, constants).hash().to_repr().to_vec()
}

/// Relies on neptune's Poseidon for arity 6; see `poseidon_hash4`.
#[verifier::external_body]
pub(crate) fn poseidon_hash6(c: &HashConstants, preimage: &Vec<Vec<u8>>) -> (r: Vec<u8>)
    requires
        preimage.deep_view().len() == 6,
    ensures
        r@ == poseidon6_of(preimage.deep_view()),
        r@.len() == 32,
{
    let constants = c.c6.get_or_init(PoseidonConstants::new);
    let elems: Vec<blstrs::Scalar> = preimage
        .iter()
        .map(|v| {
            let mut a = [0u8; 32];
            for (i, b) in v.iter().take(32).enumerate() {
                a[i] = *b;
            }
            Option::from(blstrs::Scalar::from_repr(a)).unwrap_or(blstrs::Scalar::ZERO)
        })
        .collect();
    neptune::Poseidon::new_with_preimage(&elems, constants).hash().to_repr().to_vec()
}

/// Relies on neptune's Poseidon for arity 8; see `poseidon_hash4`.
#[verifier::external_body]
pub(crate) fn poseidon_hash8(c: &HashConstants, preimage: &Vec<Vec<u8>>) -> (r: Vec<u8>)
    requires
        preimage.deep_view().len() == 8,
    ensures
        r@ == poseidon8_of(preimage.deep_view()),
        r@.len() == 32,
{
    let constants = c.c8.get_or_init(PoseidonConstants::new);
    let elems: Vec<blstrs::Scalar> = preimage
        .iter()
        .map(|v| {
            let mut a = [0u8; 32];
            for (i, b) in v.iter().take(32).enumerate() {
                a[i] = *b;
            }
            Option::from(blstrs::Scalar::from_repr(a)).unwrap_or(blstrs::Scalar::ZERO)
        })
        .collect();
    neptune::Poseidon::new_with_preimage(&elems, constants).hash().to_repr().to_vec()
}

} // verus!
