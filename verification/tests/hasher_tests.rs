use zwaves_primitives::field::FieldElement;
use zwaves_primitives::hasher::{str_to_bin, PedersenHasherBls12};
use zwaves_primitives::pedersen::Personalization;

#[test]
fn test_pedersen_hash() {
    let hasher = PedersenHasherBls12::default();
    let mut hash = hasher.hash(FieldElement::from_u64(6));

    for i in 0..63 {
        hash = hasher.compress(&hash, &hash, Personalization::TreeLevel(i));
    }

    // Fr(0x01c2bcb36b2d8126d5812ad211bf90706db31f50bf27f77225d558047571e1aa)
    let expected = FieldElement::from_limbs(
        0x25d558047571e1aa,
        0x6db31f50bf27f772,
        0xd5812ad211bf9070,
        0x01c2bcb36b2d8126,
    );
    assert_eq!(hash, expected);
}

#[test]
fn test_root() {
    let hasher = PedersenHasherBls12::default();

    let h1 = hasher.hash_bits(str_to_bin(1));
    let h2 = hasher.hash_bits(str_to_bin(2));
    let h3 = hasher.hash_bits(str_to_bin(3));
    let h5 = hasher.hash_bits(str_to_bin(5));

    let res = hasher.root(
        vec![Some((h1, true)), Some((h2, false)), Some((h3, false))],
        Some(h5),
    );

    // Fr(0x238fa29d1378c0e37e6e870168bfb207ec9e61fe6e15e020aca7123da2d3c2e7)
    let expected = FieldElement::from_limbs(
        0xaca7123da2d3c2e7,
        0xec9e61fe6e15e020,
        0x7e6e870168bfb207,
        0x238fa29d1378c0e3,
    );
    assert_eq!(res.unwrap(), expected);
}

//           Merkle tree:
//            h14 (root)
//        h12           !h13
//   !h8      h9     h10    h11
// h0 h1  [h2] !h3  h4 h5  h6 h7
#[test]
fn test_root_2() {
    let hasher = PedersenHasherBls12::default();

    let mut tree: Vec<_> = (1..=15).map(|i| hasher.hash_bits(str_to_bin(i))).collect();

    tree[8] = hasher.compress(&tree[0], &tree[1], Personalization::TreeLevel(0));
    tree[9] = hasher.compress(&tree[2], &tree[3], Personalization::TreeLevel(0));
    tree[10] = hasher.compress(&tree[4], &tree[5], Personalization::TreeLevel(0));
    tree[11] = hasher.compress(&tree[6], &tree[7], Personalization::TreeLevel(0));

    tree[12] = hasher.compress(&tree[8], &tree[9], Personalization::TreeLevel(1));
    tree[13] = hasher.compress(&tree[10], &tree[11], Personalization::TreeLevel(1));

    tree[14] = hasher.compress(&tree[12], &tree[13], Personalization::TreeLevel(2));

    let res = hasher.root(
        vec![
            Some((tree[3], false)),
            Some((tree[8], true)),
            Some((tree[13], false)),
        ],
        Some(tree[2]),
    );

    assert_eq!(res.unwrap(), tree[14]);
    // Fr(0x4ae608379b1f4b34616934667566fbd43088b5e36ec4e5330b943ba78c273d39)
    let expected = FieldElement::from_limbs(
        0x0b943ba78c273d39,
        0x3088b5e36ec4e533,
        0x616934667566fbd4,
        0x4ae608379b1f4b34,
    );
    assert_eq!(tree[14], expected);
}

//           Merkle tree:
//            h14 (root)
//        h12           !h13
//   !h8      h9     h10    h11
// h0 h1  !h2 h3  [h4 h5  h6] h7
#[test]
fn test_update_root() {
    let hasher = PedersenHasherBls12::default();

    let mut tree: Vec<_> = (1..=15).map(|i| hasher.hash_bits(str_to_bin(i))).collect();
    let zero = FieldElement::zero();

    tree[8] = hasher.compress(&tree[0], &tree[1], Personalization::TreeLevel(0));
    tree[9] = hasher.compress(&tree[2], &tree[3], Personalization::TreeLevel(0));
    tree[10] = hasher.compress(&zero, &zero, Personalization::TreeLevel(0));
    tree[11] = hasher.compress(&zero, &tree[7], Personalization::TreeLevel(0));

    tree[12] = hasher.compress(&tree[8], &tree[9], Personalization::TreeLevel(1));
    tree[13] = hasher.compress(&tree[10], &tree[11], Personalization::TreeLevel(1));

    tree[14] = hasher.compress(&tree[12], &tree[13], Personalization::TreeLevel(2));

    let merkle_defaults: Vec<_> = (0..256)
        .map(|_| hasher.compress(&zero, &zero, Personalization::TreeLevel(0)))
        .collect();

    let res = hasher.update_root(
        &vec![tree[2], tree[8], tree[13]],
        4,
        &vec![tree[4], tree[5], tree[6]],
        &merkle_defaults,
    );
    let tree13 = tree[13];

    // The rise of the updated run, computed node by node: round `i` of the
    // update compresses under `TreeLevel(i)`, pads the odd first frame with
    // zero, and at the one level where the run sits in a right subtree
    // (bit 2 of the index) takes the supplied sibling for the left slot.
    let n10 = hasher.compress(&tree[4], &tree[5], Personalization::TreeLevel(1));
    let n11 = hasher.compress(&tree[6], &zero, Personalization::TreeLevel(1));
    let n13 = hasher.compress(&n10, &n11, Personalization::TreeLevel(2));
    let expected = hasher.compress(&tree13, &n13, Personalization::TreeLevel(3));

    assert_eq!(res, expected);
}
