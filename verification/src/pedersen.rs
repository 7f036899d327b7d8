//! The external compression primitive: the Sapling Pedersen hash, domain
//! separated by a personalization tag, mapping a bit string to a field
//! element.

use vstd::prelude::*;

use crate::field::FieldElement;
use group::Curve;
use sapling_crypto::pedersen_hash as sph;

verus! {

/// The closed set of domain-separation tags mixed into every compression:
/// `LeafCommitment` for leaf hashing, `TreeLevel(n)` for internal nodes,
/// with `n = 0` at the leaves' parents in path reconstruction.
#[derive(Clone, Copy, PartialEq, Eq, Structural, Debug)]
pub enum Personalization {
    LeafCommitment,
    TreeLevel(usize),
}

/// Whether the tag can be consumed by the Pedersen primitive: a tree level
/// must fit the six personalization bits reserved for it.
pub open spec fn tag_ok(p: Personalization) -> bool {
    match p {
        Personalization::LeafCommitment => true,
        Personalization::TreeLevel(n) => n < 63,
    }
}

/// The value of the Pedersen hash on a tag and a bit string. The primitive
/// is deterministic and depends on its two arguments alone, so the result
/// bears a name; nothing further is assumed of it.
pub uninterp spec fn pedersen(p: Personalization, bits: Seq<bool>) -> FieldElement;

/// Relies on `sapling_crypto::pedersen_hash::pedersen_hash` with the fixed
/// Zcash generator set: a deterministic function of the tag and the bits.
/// The affine u-coordinate of the resulting Jubjub point is returned in its
/// canonical little-endian byte serialization, read into four limbs. The
/// primitive asserts that a `MerkleTree` depth is below 63 and panics when
/// the input outruns the six fixed generators (63 chunks of 3 bits each,
/// 6 of the 1134 bits taken by the tag), so those inputs are excluded here.
#[verifier::external_body]
pub(crate) fn pedersen_hash_call(p: Personalization, bits: &Vec<bool>) -> (r: FieldElement)
    requires
        tag_ok(p),
        bits@.len() <= 1128,
    ensures
        r == pedersen(p, bits@),
{
    let tag = match p {
        Personalization::LeafCommitment => sph::Personalization::NoteCommitment,
        Personalization::TreeLevel(n) => sph::Personalization::MerkleTree(n),
    };
    let point = sph::pedersen_hash(tag, bits.iter().copied());
    let b = jubjub::ExtendedPoint::from(point).to_affine().get_u().to_bytes();
    let mut l = [0u64; 4];
    for k in 0..4 {
        l[k] = u64::from_le_bytes(b[8 * k..8 * k + 8].try_into().unwrap());
    }
    FieldElement { l0: l[0], l1: l[1], l2: l[2], l3: l[3] }
}

} // verus!
