//! The hashing engine: leaf commitments, node compression, root
//! reconstruction from an authentication path, and the batched update of a
//! contiguous leaf range.

use vstd::arithmetic::div_mod::{lemma_basic_div, lemma_div_denominator};
use vstd::arithmetic::power2::{
    lemma2_to64, lemma2_to64_rest, lemma_pow2_adds, lemma_pow2_pos, lemma_pow2_strictly_increases,
    pow2,
};
use vstd::bits::lemma_u64_shl_is_mul;
use vstd::prelude::*;

use crate::field::{fe_bits, fe_zero, FieldElement};
use crate::pedersen::{pedersen, pedersen_hash_call, tag_ok, Personalization};
use crate::tree::{
    compress_at, fold_path, leaf_hash, leaf_of, path_complete, round_frame, unwrap_entries,
    update_frames, update_root_spec, zeros_hash,
};

verus! {

/// The canonical bit width of a field element fed into a compression.
pub const NUM_BITS: usize = 255;

/// The hashing engine. It is stateless: the Pedersen primitive it consumes
/// carries its own fixed parameters.
pub struct PedersenHasher {}

/// The engine specialized to BLS12-381, the one curve this library serves.
pub type PedersenHasherBls12 = PedersenHasher;

impl Default for PedersenHasher {
    fn default() -> (r: Self)
        ensures
            r == (PedersenHasher {}),
    {
        PedersenHasher {}
    }
}

impl PedersenHasher {
    /// Exactly `n` bits of `data`, least significant first: zero-extended
    /// when `n` outruns the representation, silently truncating high bits
    /// when `n` falls short of it.
    pub fn get_bits_le_fixed(&self, data: FieldElement, n: usize) -> (r: Vec<bool>)
        ensures
            r@ == fe_bits(data, n as nat),
    {
        let mut r: Vec<bool> = Vec::new();
        for i in 0..n
            invariant
                r@ =~= fe_bits(data, i as nat),
        {
            let b: bool = if i < 256 {
                let limb: u64 = if i < 64 {
                    data.l0
                } else if i < 128 {
                    data.l1
                } else if i < 192 {
                    data.l2
                } else {
                    data.l3
                };
                ((limb >> ((i % 64) as u64)) & 1) == 1
            } else {
                false
            };
            r.push(b);
            proof {
                assert(i / 64 == 0 <==> i < 64) by (nonlinear_arith);
                assert(r@ =~= fe_bits(data, (i + 1) as nat));
            }
        }
        r
    }

    /// The commitment to an arbitrary finite bit sequence, under the leaf
    /// tag. The primitive's six fixed generators bound the accepted length.
    pub fn hash_bits(&self, input: Vec<bool>) -> (r: FieldElement)
        requires
            input@.len() <= 1128,
        ensures
            r == leaf_hash(input@),
    {
        pedersen_hash_call(Personalization::LeafCommitment, &input)
    }

    /// The canonical leaf commitment to a field value.
    pub fn hash(&self, data: FieldElement) -> (r: FieldElement)
        ensures
            r == leaf_of(data),
    {
        let bits = self.get_bits_le_fixed(data, NUM_BITS);
        self.hash_bits(bits)
    }

    /// One internal node: left bits first, then right bits, hashed under
    /// the given tag.
    pub fn compress(&self, left: &FieldElement, right: &FieldElement, p: Personalization) -> (r:
        FieldElement)
        requires
            tag_ok(p),
        ensures
            r == pedersen(p, fe_bits(*left, 255) + fe_bits(*right, 255)),
    {
        let mut bits = self.get_bits_le_fixed(*left, NUM_BITS);
        let mut right_bits = self.get_bits_le_fixed(*right, NUM_BITS);
        bits.append(&mut right_bits);
        pedersen_hash_call(p, &bits)
    }

    /// Folds an authentication path and a leaf into the root they commit
    /// to. Absent inputs make the root uncomputable: the result is `Some`
    /// exactly when the leaf and every path entry are present. Entry `k`
    /// supplies the sibling of the running node and its side (a true bit
    /// puts the sibling on the left), and is compressed under
    /// `TreeLevel(k)`.
    pub fn root(&self, path: Vec<Option<(FieldElement, bool)>>, list: Option<FieldElement>) -> (r:
        Option<FieldElement>)
        requires
            path@.len() <= 63,
        ensures
            r is Some <==> (list is Some && path_complete(path@)),
            (list is Some && path_complete(path@)) ==> r == Some(
                fold_path(unwrap_entries(path@), list->Some_0),
            ),
    {
        let leaf = match list {
            Some(f) => f,
            None => {
                return None;
            },
        };
        let mut acc = leaf;
        let n = path.len();
        for k in 0..n
            invariant
                n == path@.len() <= 63,
                list is Some && list->Some_0 == leaf,
                forall|j: int| 0 <= j < k ==> path@[j] is Some,
                acc == fold_path(unwrap_entries(path@).take(k as int), leaf),
        {
            match path[k] {
                Some(entry) => {
                    let (sibling, pos_bit) = entry;
                    let (lo, hi) = if pos_bit {
                        (sibling, acc)
                    } else {
                        (acc, sibling)
                    };
                    acc = self.compress(&lo, &hi, Personalization::TreeLevel(k));
                    proof {
                        let u = unwrap_entries(path@);
                        assert(u.take(k + 1).drop_last() =~= u.take(k as int));
                        assert(u.take(k + 1).last() == entry);
                    }
                },
                None => {
                    return None;
                },
            }
        }
        proof {
            assert(unwrap_entries(path@).take(n as int) =~= unwrap_entries(path@));
        }
        Some(acc)
    }

    /// Recomputes the root after overwriting the contiguous run `elements`
    /// starting at leaf `index`, at a cost linear in the tree height and the
    /// run length. `path` holds the leaf-to-root left-neighbor hashes
    /// (height minus one entries, the position deriving from `index`), and
    /// `merkle_defaults` the per-level hashes of fully empty subtrees that
    /// pad the run's right edge. The run must fit the leaf capacity of the
    /// tree, `2^(height - 1)`.
    pub fn update_root(
        &self,
        path: &Vec<FieldElement>,
        index: usize,
        elements: &Vec<FieldElement>,
        merkle_defaults: &Vec<FieldElement>,
    ) -> (r: FieldElement)
        requires
            path@.len() < 63,
            1 <= elements@.len(),
            index + elements@.len() <= pow2(path@.len()),
            merkle_defaults@.len() >= path@.len() + 1,
        ensures
            r == update_root_spec(path@, index as nat, elements@, merkle_defaults@),
    {
        let pl = path.len();
        let s = elements.len();
        let mut frame: Vec<FieldElement> = Vec::new();
        if index % 2 == 1 {
            proof {
                if pl == 0 {
                    lemma2_to64();
                }
            }
            frame.push(path[0]);
        }
        let ghost head = frame@;
        for k in 0..s
            invariant
                s == elements@.len(),
                frame@ == head + elements@.take(k as int),
        {
            frame.push(elements[k]);
            proof {
                assert(head + elements@.take(k + 1) =~= (head + elements@.take(k as int)).push(
                    elements@[k as int],
                ));
            }
        }
        proof {
            assert(elements@.take(s as int) =~= elements@);
            assert(frame@ == update_frames(path@, index as nat, elements@, merkle_defaults@, 0));
        }
        proof {
            lemma2_to64();
        }
        let mut idx = index;
        let mut i: usize = 1;
        while i <= pl
            invariant
                1 <= i <= pl + 1,
                pl == path@.len() < 63,
                1 <= elements@.len(),
                index + elements@.len() <= pow2(pl as nat),
                merkle_defaults@.len() >= pl + 1,
                idx == index as nat / pow2((i - 1) as nat),
                frame@ == update_frames(
                    path@,
                    index as nat,
                    elements@,
                    merkle_defaults@,
                    (i - 1) as nat,
                ),
                frame@.len() >= 1,
            decreases pl + 1 - i,
        {
            proof {
                lemma_pow2_pos((i - 1) as nat);
                lemma_div_denominator(index as int, pow2((i - 1) as nat) as int, 2);
                lemma_pow2_adds((i - 1) as nat, 1);
                lemma2_to64();
            }
            idx = idx / 2;
            let off = idx % 2;
            let ghost prev = frame@;
            let ghost pad_spec = if i == 1 {
                fe_zero()
            } else {
                merkle_defaults@[i - 1]
            };
            if frame.len() % 2 == 1 {
                let pad = if i == 1 {
                    FieldElement::zero()
                } else {
                    merkle_defaults[i - 1]
                };
                frame.push(pad);
            }
            let ghost padded = if prev.len() % 2 == 1 {
                prev.push(pad_spec)
            } else {
                prev
            };
            proof {
                assert(frame@ == padded);
            }
            let m = frame.len() / 2;
            let mut nf: Vec<FieldElement> = Vec::new();
            if off == 1 {
                proof {
                    if i >= pl {
                        lemma_basic_div(index as int, pow2(pl as nat) as int);
                    }
                }
                nf.push(path[i]);
            }
            let ghost start = nf@;
            let mut j: usize = 0;
            while j < m
                invariant
                    j <= m,
                    2 * m <= usize::MAX,
                    frame@ == padded,
                    frame@.len() == 2 * m,
                    i <= pl < 63,
                    nf@ == start + Seq::new(
                        j as nat,
                        |q: int| compress_at(padded[2 * q], padded[2 * q + 1], i as nat),
                    ),
                decreases m - j,
            {
                let c = self.compress(&frame[2 * j], &frame[2 * j + 1], Personalization::TreeLevel(i));
                nf.push(c);
                j += 1;
                proof {
                    assert(start + Seq::new(
                        j as nat,
                        |q: int| compress_at(padded[2 * q], padded[2 * q + 1], i as nat),
                    ) =~= (start + Seq::new(
                        (j - 1) as nat,
                        |q: int| compress_at(padded[2 * q], padded[2 * q + 1], i as nat),
                    )).push(compress_at(padded[2 * (j - 1)], padded[2 * (j - 1) + 1], i as nat)));
                }
            }
            frame = nf;
            proof {
                let slot0 = if i < path@.len() {
                    path@[i as int]
                } else {
                    fe_zero()
                };
                assert(frame@ =~= round_frame(prev, pad_spec, i as nat, off as nat, slot0));
            }
            i += 1;
        }
        frame[0]
    }

    /// The checked entry to the batched update: rejects, with `None`, a run
    /// that overruns the tree's leaf capacity, an empty run, a defaults
    /// table shorter than the height, and a height beyond the primitive's
    /// 63 tree levels; otherwise returns the recomputed root.
    pub fn try_update_root(
        &self,
        path: &Vec<FieldElement>,
        index: usize,
        elements: &Vec<FieldElement>,
        merkle_defaults: &Vec<FieldElement>,
    ) -> (r: Option<FieldElement>)
        ensures
            r is Some <==> (path@.len() < 63 && 1 <= elements@.len() && index + elements@.len()
                <= pow2(path@.len()) && merkle_defaults@.len() >= path@.len() + 1),
            r is Some ==> r->Some_0 == update_root_spec(
                path@,
                index as nat,
                elements@,
                merkle_defaults@,
            ),
    {
        let pl = path.len();
        if pl >= 63 || elements.len() == 0 || merkle_defaults.len() < pl + 1 {
            return None;
        }
        proof {
            lemma2_to64();
            lemma2_to64_rest();
            lemma_pow2_strictly_increases(pl as nat, 63);
            lemma_u64_shl_is_mul(1u64, pl as u64);
        }
        let cap: u64 = 1u64 << (pl as u64);
        let iu = index as u64;
        let su = elements.len() as u64;
        if iu > cap || su > cap - iu {
            return None;
        }
        Some(self.update_root(path, index, elements, merkle_defaults))
    }

    /// The per-level table of empty-subtree hashes consumed by the batched
    /// update: entry `l` is the hash of a fully empty subtree of height
    /// `l`, zero at the leaves.
    pub fn empty_subtree_defaults(&self, height: usize) -> (r: Vec<FieldElement>)
        requires
            height <= 63,
        ensures
            r@.len() == height,
            forall|l: int| 0 <= l < height ==> r@[l] == zeros_hash(l as nat),
    {
        let mut r: Vec<FieldElement> = Vec::new();
        if height == 0 {
            return r;
        }
        r.push(FieldElement::zero());
        for l in 1..height
            invariant
                height <= 63,
                r@.len() == l,
                forall|q: int| 0 <= q < l ==> r@[q] == zeros_hash(q as nat),
        {
            let prev = r[l - 1];
            let c = self.compress(&prev, &prev, Personalization::TreeLevel(l));
            r.push(c);
        }
        r
    }
}

/// The most significant bit first binary expansion of `i`: a single false
/// digit for zero, no leading zeros otherwise.
pub open spec fn bin_msb(i: nat) -> Seq<bool>
    decreases i,
{
    if i < 2 {
        seq![i == 1]
    } else {
        bin_msb(i / 2).push(i % 2 == 1)
    }
}

/// The binary digits of `i`, most significant first, as leaf-hash input.
pub fn str_to_bin(i: u32) -> (r: Vec<bool>)
    ensures
        r@ == bin_msb(i as nat),
    decreases i,
{
    if i < 2 {
        let mut v: Vec<bool> = Vec::new();
        v.push(i == 1);
        proof {
            assert(v@ =~= seq![i == 1]);
        }
        v
    } else {
        let mut v = str_to_bin(i / 2);
        v.push(i % 2 == 1);
        v
    }
}

} // verus!
