//! The mathematical model of the tree: what one compression means, what a
//! reconstructed root is, what a bottom-up built tree's nodes are, and what
//! the batched update computes level by level.

use vstd::arithmetic::power2::pow2;
use vstd::prelude::*;

use crate::field::{fe_bits, fe_zero, FieldElement};
use crate::pedersen::{pedersen, Personalization};

verus! {

/// The commitment to a raw bit string.
pub open spec fn leaf_hash(bits: Seq<bool>) -> FieldElement {
    pedersen(Personalization::LeafCommitment, bits)
}

/// The canonical leaf commitment to a field value: its first 255 bits hashed
/// under the leaf tag.
pub open spec fn leaf_of(f: FieldElement) -> FieldElement {
    leaf_hash(fe_bits(f, 255))
}

/// One internal node: both children serialized to 255 bits, left first,
/// hashed under the tree-level tag `lvl`.
pub open spec fn compress_at(a: FieldElement, b: FieldElement, lvl: nat) -> FieldElement {
    pedersen(Personalization::TreeLevel(lvl as usize), fe_bits(a, 255) + fe_bits(b, 255))
}

/// The root reached from `leaf` by folding the authentication path entries
/// leaf-to-root. Entry `k` holds the sibling hash and its position bit: a
/// true bit puts the sibling in the left slot. Step `k` is tagged
/// `TreeLevel(k)`, `0` at the leaves' parents.
pub open spec fn fold_path(entries: Seq<(FieldElement, bool)>, leaf: FieldElement) -> FieldElement
    decreases entries.len(),
{
    if entries.len() == 0 {
        leaf
    } else {
        let (sibling, sibling_is_left) = entries.last();
        let inner = fold_path(entries.drop_last(), leaf);
        if sibling_is_left {
            compress_at(sibling, inner, (entries.len() - 1) as nat)
        } else {
            compress_at(inner, sibling, (entries.len() - 1) as nat)
        }
    }
}

/// Node `j` at height `lvl` of the tree built bottom-up over `leaves`,
/// where the compression producing a node at height `k` is tagged
/// `TreeLevel(k - 1 + t)`. Path reconstruction tags the leaves' parents
/// with level 0 (`t == 0`); the batched update tags its first round with
/// level 1 (`t == 1`).
pub open spec fn node_hash(leaves: Seq<FieldElement>, lvl: nat, j: nat, t: nat) -> FieldElement
    decreases lvl,
{
    if lvl == 0 {
        leaves[j as int]
    } else {
        compress_at(
            node_hash(leaves, (lvl - 1) as nat, 2 * j, t),
            node_hash(leaves, (lvl - 1) as nat, 2 * j + 1, t),
            (lvl - 1 + t) as nat,
        )
    }
}

/// The hash of a fully empty subtree of height `lvl` under the batched
/// update's tagging: zero at the leaves, and each level `k` combining two
/// copies of the level below under `TreeLevel(k)`.
pub open spec fn zeros_hash(lvl: nat) -> FieldElement
    decreases lvl,
{
    if lvl == 0 {
        fe_zero()
    } else {
        compress_at(zeros_hash((lvl - 1) as nat), zeros_hash((lvl - 1) as nat), lvl)
    }
}

/// Whether every entry of an authentication path is present.
pub open spec fn path_complete(s: Seq<Option<(FieldElement, bool)>>) -> bool {
    forall|k: int| 0 <= k < s.len() ==> s[k] is Some
}

/// The present entries of a complete authentication path.
pub open spec fn unwrap_entries(s: Seq<Option<(FieldElement, bool)>>) -> Seq<
    (FieldElement, bool),
> {
    Seq::new(s.len(), |k: int| s[k]->Some_0)
}

/// One round of the batched update at level `lvl`. An odd frame is first
/// extended on the right with `pad`; adjacent pairs are then compressed
/// under `TreeLevel(lvl)`; and when the frame's first node is the right
/// child of its parent (`off == 1`), the parent's left neighbor `slot0`
/// opens the new frame.
pub open spec fn round_frame(
    f: Seq<FieldElement>,
    pad: FieldElement,
    lvl: nat,
    off: nat,
    slot0: FieldElement,
) -> Seq<FieldElement> {
    let padded = if f.len() % 2 == 1 {
        f.push(pad)
    } else {
        f
    };
    let comps = Seq::new(padded.len() / 2, |j: int| compress_at(padded[2 * j], padded[2 * j + 1], lvl));
    if off == 1 {
        seq![slot0] + comps
    } else {
        comps
    }
}

/// The working frame after round `i` of the batched update of the run
/// `els` at `index`: the new leaves, preceded by `path[0]` when `index` is
/// odd, rise one level per round; round `i` pads an odd frame with the
/// empty-subtree hash of the level below (zero under the leaves' parents),
/// and opens the frame with `path[i]` when bit `i` of `index` is set.
pub open spec fn update_frames(
    path: Seq<FieldElement>,
    index: nat,
    els: Seq<FieldElement>,
    defaults: Seq<FieldElement>,
    i: nat,
) -> Seq<FieldElement>
    decreases i,
{
    if i == 0 {
        if index % 2 == 1 {
            seq![path[0]] + els
        } else {
            els
        }
    } else {
        let pad = if i == 1 {
            fe_zero()
        } else {
            defaults[i - 1]
        };
        let slot0 = if i < path.len() {
            path[i as int]
        } else {
            fe_zero()
        };
        round_frame(
            update_frames(path, index, els, defaults, (i - 1) as nat),
            pad,
            i,
            (index / pow2(i)) % 2,
            slot0,
        )
    }
}

/// The root produced by the batched update: the single value left in the
/// frame after the final round.
pub open spec fn update_root_spec(
    path: Seq<FieldElement>,
    index: nat,
    els: Seq<FieldElement>,
    defaults: Seq<FieldElement>,
) -> FieldElement {
    update_frames(path, index, els, defaults, path.len())[0]
}

/// The authentication path that a bottom-up built tree yields for leaf `i`
/// of `2^h`: entry `k` holds the sibling of the leaf's ancestor at height
/// `k`, with a position bit that is true when that sibling sits on the
/// left.
pub open spec fn extracted_path(leaves: Seq<FieldElement>, i: nat, h: nat) -> Seq<
    (FieldElement, bool),
> {
    Seq::new(
        h,
        |k: int|
            {
                let q = i / pow2(k as nat);
                let sib = if q % 2 == 1 {
                    (q - 1) as nat
                } else {
                    q + 1
                };
                (node_hash(leaves, k as nat, sib, 0), q % 2 == 1)
            },
    )
}

} // verus!
