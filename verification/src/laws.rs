//! The laws the library answers for: determinism of the hashes, consistency
//! of path reconstruction with a bottom-up built tree, and equivalence of
//! the batched update with a full rebuild over the replaced leaves.

use vstd::arithmetic::div_mod::{
    lemma_basic_div, lemma_div_denominator, lemma_fundamental_div_mod,
};
use vstd::arithmetic::power2::{lemma2_to64, lemma_pow2_adds, lemma_pow2_pos, pow2};
use vstd::prelude::*;

use crate::field::{fe_bits, fe_zero, FieldElement};
use crate::pedersen::{pedersen, Personalization};
use crate::tree::{
    extracted_path, fold_path, node_hash, update_frames, update_root_spec, zeros_hash,
};

verus! {

/// Determinism: every hashing contract equates its result to `pedersen` on
/// the tag and the input bits alone, so two results of the same call on
/// identical inputs coincide.
pub proof fn lemma_hash_deterministic(
    p: Personalization,
    bits: Seq<bool>,
    r1: FieldElement,
    r2: FieldElement,
)
    requires
        r1 == pedersen(p, bits),
        r2 == pedersen(p, bits),
    ensures
        r1 == r2,
{
}

/// Order sensitivity at the primitive's doorstep: swapping the operands of
/// a compression presents the primitive with a different bit string
/// whenever the operands serialize differently. That distinct inputs then
/// hash to distinct values is the primitive's collision resistance, assumed
/// of it rather than provable here.
pub proof fn lemma_compress_input_order(a: FieldElement, b: FieldElement)
    requires
        fe_bits(a, 255) != fe_bits(b, 255),
    ensures
        fe_bits(a, 255) + fe_bits(b, 255) != fe_bits(b, 255) + fe_bits(a, 255),
{
    let x = fe_bits(a, 255);
    let y = fe_bits(b, 255);
    if x + y == y + x {
        assert forall|i: int| 0 <= i < 255 implies x[i] == y[i] by {
            assert((x + y)[i] == (y + x)[i]);
        }
        assert(x =~= y);
    }
}

/// The fold of the first `k` extracted path entries reaches the built
/// tree's node above leaf `i` at height `k`.
proof fn lemma_fold_extracted_prefix(leaves: Seq<FieldElement>, i: nat, k: nat)
    ensures
        fold_path(extracted_path(leaves, i, k), leaves[i as int]) == node_hash(
            leaves,
            k,
            i / pow2(k),
            0,
        ),
    decreases k,
{
    lemma2_to64();
    if k == 0 {
    } else {
        let l1 = (k - 1) as nat;
        let pth = extracted_path(leaves, i, k);
        assert(pth.drop_last() =~= extracted_path(leaves, i, l1));
        lemma_fold_extracted_prefix(leaves, i, l1);
        let q = i / pow2(l1);
        lemma_pow2_pos(l1);
        lemma_div_denominator(i as int, pow2(l1) as int, 2);
        lemma_pow2_adds(l1, 1);
        lemma_fundamental_div_mod(q as int, 2);
        assert(i / pow2(k) == q / 2);
    }
}

/// Reconstruction consistency: for a tree built bottom-up over `2^h`
/// leaves, folding the path extracted for any leaf, from that leaf,
/// reaches the tree's directly computed top value.
pub proof fn lemma_root_reconstruction(leaves: Seq<FieldElement>, i: nat, h: nat)
    requires
        leaves.len() == pow2(h),
        i < pow2(h),
    ensures
        fold_path(extracted_path(leaves, i, h), leaves[i as int]) == node_hash(leaves, h, 0, 0),
{
    lemma_fold_extracted_prefix(leaves, i, h);
    lemma_pow2_pos(h);
    lemma_basic_div(i as int, pow2(h) as int);
}

/// A built node over all-zero leaves is the empty-subtree hash of its
/// height.
proof fn lemma_zeros_node(leaves: Seq<FieldElement>, lvl: nat, j: nat)
    requires
        (j + 1) * pow2(lvl) <= leaves.len(),
        forall|q: int| j * pow2(lvl) <= q < (j + 1) * pow2(lvl) ==> leaves[q] == fe_zero(),
    ensures
        node_hash(leaves, lvl, j, 1) == zeros_hash(lvl),
    decreases lvl,
{
    lemma2_to64();
    lemma_pow2_pos(lvl);
    if lvl == 0 {
        assert(j * pow2(lvl) == j && (j + 1) * pow2(lvl) == j + 1) by (nonlinear_arith)
            requires
                pow2(lvl) == 1,
        ;
        assert(leaves[j as int] == fe_zero());
    } else {
        let l1 = (lvl - 1) as nat;
        lemma_pow2_pos(l1);
        lemma_pow2_adds(l1, 1);
        assert((2 * j) * pow2(l1) == j * pow2(lvl)) by (nonlinear_arith)
            requires
                pow2(lvl) == pow2(l1) * 2,
        ;
        assert((2 * j + 2) * pow2(l1) == (j + 1) * pow2(lvl)) by (nonlinear_arith)
            requires
                pow2(lvl) == pow2(l1) * 2,
        ;
        assert((2 * j + 1) * pow2(l1) == (2 * j) * pow2(l1) + pow2(l1)) by (nonlinear_arith);
        assert((2 * j + 1 + 1) * pow2(l1) == (2 * j + 2) * pow2(l1)) by (nonlinear_arith);
        assert((2 * j + 1) * pow2(l1) <= (2 * j + 2) * pow2(l1)) by (nonlinear_arith)
            requires
                pow2(l1) > 0,
        ;
        lemma_zeros_node(leaves, l1, 2 * j);
        lemma_zeros_node(leaves, l1, 2 * j + 1);
    }
}

/// What each batched-update frame holds after round `i`, for a tree whose
/// leaves carry the new run at `index` and zeros at and beyond its right
/// edge: the frame starts at the even node `base` of level `i`, its slots
/// are exactly the built tree's nodes there, it stays within the level,
/// and it covers the run's right edge.
proof fn lemma_update_frames_nodes(
    path: Seq<FieldElement>,
    index: nat,
    els: Seq<FieldElement>,
    defaults: Seq<FieldElement>,
    leaves: Seq<FieldElement>,
    i: nat,
)
    requires
        leaves.len() == pow2(path.len()),
        1 <= els.len(),
        index + els.len() <= pow2(path.len()),
        forall|j: int| 0 <= j < els.len() ==> leaves[index + j] == #[trigger] els[j],
        forall|j: int| index + els.len() <= j < leaves.len() ==> leaves[j] == fe_zero(),
        forall|l: int| 1 <= l < path.len() ==> #[trigger] defaults[l] == zeros_hash(l as nat),
        forall|k: int|
            0 <= k < path.len() && (index / pow2(k as nat)) % 2 == 1 ==> #[trigger] path[k]
                == node_hash(leaves, k as nat, (index / pow2(k as nat) - 1) as nat, 1),
        i <= path.len(),
    ensures
        ({
            let f = update_frames(path, index, els, defaults, i);
            let start = index / pow2(i);
            let base = (start - start % 2) as nat;
            &&& f.len() >= 1
            &&& base + f.len() <= pow2((path.len() - i) as nat)
            &&& (base + f.len()) * pow2(i) >= index + els.len()
            &&& forall|p: int|
                0 <= p < f.len() ==> f[p] == node_hash(leaves, i, (base + p) as nat, 1)
        }),
    decreases i,
{
    lemma2_to64();
    let pl = path.len();
    let f = update_frames(path, index, els, defaults, i);
    if i == 0 {
        let off: nat = index % 2;
        let base = (index - off) as nat;
        if off == 1 {
            assert(index / pow2(0) == index);
            assert(f[0] == node_hash(leaves, 0, base, 1));
        }
        assert(base + f.len() == index + els.len());
        assert((base + f.len()) * pow2(0) == base + f.len()) by (nonlinear_arith)
            requires
                pow2(0) == 1,
        ;
        assert(forall|p: int|
            0 <= p < f.len() ==> f[p] == node_hash(leaves, 0, (base + p) as nat, 1));
    } else {
        let l1 = (i - 1) as nat;
        lemma_update_frames_nodes(path, index, els, defaults, leaves, l1);
        let f1 = update_frames(path, index, els, defaults, l1);
        let start1 = index / pow2(l1);
        let base1 = (start1 - start1 % 2) as nat;
        let e1 = base1 + f1.len();
        lemma_pow2_pos(l1);
        lemma_pow2_pos(i);
        lemma_pow2_adds(l1, 1);
        lemma_pow2_adds((pl - i) as nat, 1);
        lemma_div_denominator(index as int, pow2(l1) as int, 2);
        let start = index / pow2(i);
        assert(start == start1 / 2);
        lemma_fundamental_div_mod(start1 as int, 2);
        assert(base1 == 2 * start);
        let off = start % 2;
        let base = (start - off) as nat;

        let pad = if i == 1 {
            fe_zero()
        } else {
            defaults[i - 1]
        };
        assert(pad == zeros_hash(l1));
        let padded = if f1.len() % 2 == 1 {
            f1.push(pad)
        } else {
            f1
        };
        let e1p = base1 + padded.len();

        // The level width bound survives the possible padding slot: the
        // frame end is odd when a pad is added, and the width is even.
        assert(pow2((pl - l1) as nat) == 2 * pow2((pl - i) as nat));
        if f1.len() % 2 == 1 {
            // The pad slot stands for the empty node just right of the
            // frame, whose leaves all lie at or beyond the run's edge.
            assert(e1 % 2 == 1);
            assert(e1 < pow2((pl - l1) as nat));
            assert((e1 + 1) * pow2(l1) <= pow2((pl - l1) as nat) * pow2(l1)) by (nonlinear_arith)
                requires
                    e1 + 1 <= pow2((pl - l1) as nat),
                    pow2(l1) > 0,
            ;
            lemma_pow2_adds((pl - l1) as nat, l1);
            assert(e1 * pow2(l1) >= index + els.len());
            lemma_zeros_node(leaves, l1, e1);
            assert(padded[e1 - base1] == node_hash(leaves, l1, e1, 1));
        }
        assert(padded.len() % 2 == 0);
        assert(forall|p: int|
            0 <= p < padded.len() ==> padded[p] == node_hash(leaves, l1, (base1 + p) as nat, 1));

        let m = padded.len() / 2;
        assert(padded.len() == 2 * m);
        // Each compressed pair is the built node of level i above it.
        assert(forall|q: int|
            0 <= q < m ==> #[trigger] f[q + off] == node_hash(leaves, i, (start + q) as nat, 1))
            by {
            assert forall|q: int| 0 <= q < m implies #[trigger] f[q + off] == node_hash(
                leaves,
                i,
                (start + q) as nat,
                1,
            ) by {
                assert(2 * (start + q) == base1 + 2 * q);
                assert(padded[2 * q] == node_hash(leaves, l1, (base1 + 2 * q) as nat, 1));
                assert(padded[2 * q + 1] == node_hash(leaves, l1, (base1 + 2 * q + 1) as nat, 1));
            }
        }

        if off == 1 {
            // A set bit above the run means a left neighbor inside the
            // tree: the level cannot be the top one.
            assert(index < pow2(pl));
            if i == pl {
                lemma_basic_div(index as int, pow2(pl) as int);
            }
            assert(i < pl);
            assert(f[0] == path[i as int]);
            assert(f[0] == node_hash(leaves, i, base, 1));
        }
        assert(f.len() == off + m);
        assert(forall|p: int|
            0 <= p < f.len() ==> f[p] == node_hash(leaves, i, (base + p) as nat, 1));

        // The new frame end is half the padded old end, and keeps both
        // the width bound and the coverage of the run's right edge.
        let e = base + f.len();
        assert(e1p % 2 == 0);
        assert(e == e1p / 2);
        assert(e1p <= pow2((pl - l1) as nat));
        assert(e <= pow2((pl - i) as nat));
        assert(e * pow2(i) == e1p * pow2(l1)) by (nonlinear_arith)
            requires
                e1p == 2 * e,
                pow2(i) == pow2(l1) * 2,
        ;
        assert(e1p * pow2(l1) >= e1 * pow2(l1)) by (nonlinear_arith)
            requires
                e1p >= e1,
                pow2(l1) > 0,
        ;
        assert((base + f.len()) * pow2(i) >= index + els.len());
    }
}

/// Batch-update equivalence: for a tree with `2^(height - 1)` leaves that
/// carries the new run at `index` and zeros at and beyond the run's right
/// edge, with a sibling path matching the built nodes left of the run and
/// defaults matching the empty-subtree hashes, the batched update computes
/// exactly the root of the full bottom-up rebuild.
pub proof fn lemma_update_root_rebuild(
    path: Seq<FieldElement>,
    index: nat,
    els: Seq<FieldElement>,
    defaults: Seq<FieldElement>,
    leaves: Seq<FieldElement>,
)
    requires
        leaves.len() == pow2(path.len()),
        1 <= els.len(),
        index + els.len() <= pow2(path.len()),
        forall|j: int| 0 <= j < els.len() ==> leaves[index + j] == #[trigger] els[j],
        forall|j: int| index + els.len() <= j < leaves.len() ==> leaves[j] == fe_zero(),
        forall|l: int| 1 <= l < path.len() ==> #[trigger] defaults[l] == zeros_hash(l as nat),
        forall|k: int|
            0 <= k < path.len() && (index / pow2(k as nat)) % 2 == 1 ==> #[trigger] path[k]
                == node_hash(leaves, k as nat, (index / pow2(k as nat) - 1) as nat, 1),
    ensures
        update_root_spec(path, index, els, defaults) == node_hash(leaves, path.len(), 0, 1),
{
    let pl = path.len();
    lemma_update_frames_nodes(path, index, els, defaults, leaves, pl);
    lemma_pow2_pos(pl);
    lemma_basic_div(index as int, pow2(pl) as int);
    lemma2_to64();
}

} // verus!
