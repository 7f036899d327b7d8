//! The field-element value that every hash consumes and produces: the
//! canonical 256-bit little-endian representation of an element of the
//! BLS12-381 scalar field, held as four 64-bit limbs.

use vstd::prelude::*;

verus! {

/// An immutable field value in canonical (reduced) little-endian limb form.
/// Limb `l0` holds the least significant 64 bits.
#[derive(Clone, Copy, PartialEq, Eq, Structural, Debug)]
pub struct FieldElement {
    pub l0: u64,
    pub l1: u64,
    pub l2: u64,
    pub l3: u64,
}

/// The all-zero field element, the hash of a structurally absent leaf.
pub open spec fn fe_zero() -> FieldElement {
    FieldElement { l0: 0, l1: 0, l2: 0, l3: 0 }
}

/// Limb `k` of the 256-bit representation, least significant first.
pub open spec fn fe_limb(f: FieldElement, k: int) -> u64 {
    if k == 0 {
        f.l0
    } else if k == 1 {
        f.l1
    } else if k == 2 {
        f.l2
    } else {
        f.l3
    }
}

/// Bit `i` of the little-endian bit expansion, for `0 <= i < 256`.
pub open spec fn fe_bit(f: FieldElement, i: int) -> bool {
    (fe_limb(f, i / 64) >> ((i % 64) as u64)) & 1 == 1
}

/// The first `n` bits of the little-endian expansion, zero-extended past
/// the 256 bits of the representation.
pub open spec fn fe_bits(f: FieldElement, n: nat) -> Seq<bool> {
    Seq::new(n, |i: int| if i < 256 { fe_bit(f, i) } else { false })
}

impl FieldElement {
    /// The zero element.
    pub fn zero() -> (r: FieldElement)
        ensures
            r == fe_zero(),
    {
        FieldElement { l0: 0, l1: 0, l2: 0, l3: 0 }
    }

    /// The element whose canonical representation is the integer `v`.
    pub fn from_u64(v: u64) -> (r: FieldElement)
        ensures
            r == (FieldElement { l0: v, l1: 0, l2: 0, l3: 0 }),
    {
        FieldElement { l0: v, l1: 0, l2: 0, l3: 0 }
    }

    /// The element with the given four little-endian limbs.
    pub fn from_limbs(l0: u64, l1: u64, l2: u64, l3: u64) -> (r: FieldElement)
        ensures
            r == (FieldElement { l0, l1, l2, l3 }),
    {
        FieldElement { l0, l1, l2, l3 }
    }
}

} // verus!
