use revocable_anchors::hasher::{hash, Blake2s, Hashed};
use revocable_anchors::merkle::{verify_proof, MerkleRoot, ProofElement};
use std::fmt::Debug;

type Digest = [u8; 32];

const ROOT_OF_FOUR: Digest = [
    0x59, 0x0e, 0x4f, 0xd5, 0x48, 0x78, 0x1c, 0xa8, 0x0f, 0x35, 0xe4, 0x29, 0xb3, 0xf2, 0xda,
    0xeb, 0x9a, 0x9d, 0x6a, 0xfc, 0x6d, 0xac, 0x47, 0xe7, 0xe2, 0x27, 0x48, 0x52, 0x3b, 0xe9,
    0x28, 0x28,
];

fn leaf(account: u64) -> Hashed<u64, Blake2s, Digest> {
    Hashed::from(account)
}

/// The leaf node of `account`: its digest, hashed once more.
fn node(account: u64) -> Digest {
    hash::<Digest, Blake2s, Digest>(&leaf(account).hash)
}

fn pair(left: &Digest, right: &Digest) -> Digest {
    hash::<_, Blake2s, _>(&(left, right))
}

/// The root of the tree over accounts 0, 1, 2, 3 and the proof of each.
fn tree_of_four() -> (MerkleRoot<u64, Blake2s, Digest>, Vec<Vec<ProofElement<Digest>>>) {
    let p01 = pair(&node(0), &node(1));
    let p23 = pair(&node(2), &node(3));
    let root = pair(&p01, &p23);
    let proofs = vec![
        vec![ProofElement::Right(node(1)), ProofElement::Right(p23)],
        vec![ProofElement::Left(node(0)), ProofElement::Right(p23)],
        vec![ProofElement::Right(node(3)), ProofElement::Left(p01)],
        vec![ProofElement::Left(node(2)), ProofElement::Left(p01)],
    ];
    (MerkleRoot::from_root(root), proofs)
}

fn flipped(element: &ProofElement<Digest>) -> ProofElement<Digest> {
    match element {
        ProofElement::Left(sibling) => ProofElement::Right(*sibling),
        ProofElement::Right(sibling) => ProofElement::Left(*sibling),
    }
}

fn static_assert_impls(_: impl Eq + Debug) {}

#[test]
fn types_impl_needed_traits() {
    #[derive(Debug)]
    struct Blah {}
    static_assert_impls(Hashed::<Blah, Blake2s, [u8; 32]>::prehashed([0u8; 32]));
    static_assert_impls(MerkleRoot::<Blah, Blake2s, [u8; 32]>::from_root([0u8; 32]));
    static_assert_impls(ProofElement::<[u8; 32]>::Left([0u8; 32]));
}

#[test]
fn proofs_and_trees() {
    let (root, proofs) = tree_of_four();
    assert_eq!(root, MerkleRoot::from_root(ROOT_OF_FOUR));
    for account in 0..4u64 {
        for (owner, proof) in proofs.iter().enumerate() {
            assert_eq!(
                verify_proof(&root, proof, leaf(account)),
                account == owner as u64
            );
        }
    }
    // no proof of the tree is a proof for an outsider
    for proof in &proofs {
        assert!(!verify_proof(&root, proof, leaf(4)));
    }
}

#[test]
fn empty_proof_verifies_exactly_the_one_member_tree() {
    let root: MerkleRoot<u64, Blake2s, Digest> = MerkleRoot::from_root(node(0));
    assert!(verify_proof(&root, &[], leaf(0)));
    assert!(!verify_proof(&root, &[], leaf(1)));
    // the leaf digest itself is no root: the leaf is hashed once more
    let unhashed: MerkleRoot<u64, Blake2s, Digest> = MerkleRoot::from_root(leaf(0).hash);
    assert!(!verify_proof(&unhashed, &[], leaf(0)));
    assert_eq!(
        node(0),
        [
            0x89, 0xce, 0xdb, 0xa7, 0x63, 0x3f, 0x03, 0xaa, 0x70, 0x08, 0xfa, 0x45, 0xc6, 0xad,
            0xa2, 0xdb, 0x92, 0x61, 0x31, 0x72, 0x5b, 0xc2, 0x91, 0x99, 0xf5, 0x17, 0x4e, 0xee,
            0x50, 0x45, 0x32, 0xd0
        ]
    );
}

#[test]
fn zero_root_rejects_the_proofs_tried() {
    let root: MerkleRoot<u64, Blake2s, Digest> = Default::default();
    assert_eq!(root, MerkleRoot::from_root([0u8; 32]));
    let (_, proofs) = tree_of_four();
    for account in 0..4u64 {
        assert!(!verify_proof(&root, &[], leaf(account)));
        for proof in &proofs {
            assert!(!verify_proof(&root, proof, leaf(account)));
        }
    }
}

#[test]
fn changing_any_byte_of_any_sibling_breaks_the_proof() {
    let (root, proofs) = tree_of_four();
    for (owner, proof) in proofs.iter().enumerate() {
        for level in 0..proof.len() {
            for byte in 0..32 {
                let mut tampered = proof.clone();
                tampered[level] = match &proof[level] {
                    ProofElement::Left(sibling) => {
                        let mut sibling = *sibling;
                        sibling[byte] ^= 0x01;
                        ProofElement::Left(sibling)
                    }
                    ProofElement::Right(sibling) => {
                        let mut sibling = *sibling;
                        sibling[byte] ^= 0x80;
                        ProofElement::Right(sibling)
                    }
                };
                assert!(!verify_proof(&root, &tampered, leaf(owner as u64)));
            }
        }
    }
}

#[test]
fn flipping_a_side_breaks_the_proof() {
    let (root, proofs) = tree_of_four();
    for (owner, proof) in proofs.iter().enumerate() {
        for level in 0..proof.len() {
            let mut tampered = proof.clone();
            tampered[level] = flipped(&proof[level]);
            assert!(!verify_proof(&root, &tampered, leaf(owner as u64)));
        }
    }
}

#[test]
fn flipping_a_side_between_equal_nodes_changes_nothing() {
    // a tree whose two leaves are the same account: the pair is symmetric
    let root: MerkleRoot<u64, Blake2s, Digest> =
        MerkleRoot::from_root(pair(&node(0), &node(0)));
    assert!(verify_proof(&root, &[ProofElement::Left(node(0))], leaf(0)));
    assert!(verify_proof(&root, &[ProofElement::Right(node(0))], leaf(0)));
}

#[test]
fn shortened_and_lengthened_proofs_fail() {
    let (root, proofs) = tree_of_four();
    let proof = &proofs[0];
    assert!(!verify_proof(&root, &proof[..1], leaf(0)));
    assert!(!verify_proof(&root, &[], leaf(0)));
    let mut longer = proof.clone();
    longer.push(ProofElement::Left([0u8; 32]));
    assert!(!verify_proof(&root, &longer, leaf(0)));
}

#[test]
fn merge_puts_the_sibling_on_its_side() {
    let sibling = [0u8; 32];
    let node = [1u8; 32];
    // sibling left, node right: the digest of 32 zeros followed by 32 ones
    let expected = [
        0x63, 0xdf, 0x7e, 0xb2, 0x27, 0xfb, 0x4e, 0x7b, 0xc7, 0xff, 0x18, 0x7e, 0xbf, 0x24, 0x1e,
        0x51, 0x14, 0xea, 0x72, 0xb6, 0x5b, 0x8f, 0x7b, 0xb2, 0x6c, 0x1c, 0x41, 0xcc, 0xe2, 0xaa,
        0xb1, 0xc8,
    ];
    assert_eq!(
        ProofElement::Left(sibling).merge::<Blake2s>(&node),
        expected
    );
    assert_eq!(
        ProofElement::Right(node).merge::<Blake2s>(&sibling),
        expected
    );
    assert_ne!(
        ProofElement::Right(sibling).merge::<Blake2s>(&node),
        expected
    );
}

#[test]
fn proof_elements_compare_and_clone() {
    let left = ProofElement::Left([1u8; 32]);
    assert_eq!(left.clone(), left);
    assert_ne!(left, ProofElement::Right([1u8; 32]));
    assert_ne!(left, ProofElement::Left([2u8; 32]));
    let root: MerkleRoot<u64, Blake2s, Digest> = MerkleRoot::from_root([1u8; 32]);
    assert_eq!(root.clone(), root);
    assert_eq!(*root.digest(), [1u8; 32]);
    assert_ne!(root, MerkleRoot::from_root([2u8; 32]));
}
