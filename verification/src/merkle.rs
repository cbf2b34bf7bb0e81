use crate::hasher::{
    all_zero, hash, lemma_bytes_encode_as_themselves, same_digest, Hashable, Hashed, Hasher,
};
use core::marker::PhantomData;
use vstd::prelude::*;

verus! {

/// The root of a Merkle tree over members of domain `T`, built with `H`.
#[derive(Debug)]
pub struct MerkleRoot<T, H, O> {
    hash: O,
    _spook: PhantomData<(T, H)>,
}

impl<T, H, O> View for MerkleRoot<T, H, O> {
    type V = O;

    /// The root digest itself, without its tags.
    closed spec fn view(&self) -> O {
        self.hash
    }
}

impl<T, H: Hasher<O>, O> MerkleRoot<T, H, O> {
    /// Tags the digest at the top of a tree as the root of that tree.
    pub fn from_root(hash: O) -> (root: Self)
        ensures
            root@ == hash,
    {
        let _spook = PhantomData;
        Self { hash, _spook }
    }

    /// The root digest itself.
    pub fn digest(&self) -> (digest: &O)
        ensures
            *digest == self@,
    {
        &self.hash
    }
}

impl<T, H, O: Copy> Clone for MerkleRoot<T, H, O> {
    fn clone(&self) -> (copy: Self)
        ensures
            copy@ == self@,
    {
        MerkleRoot { hash: self.hash, _spook: PhantomData }
    }
}

impl<T, H> PartialEq for MerkleRoot<T, H, [u8; 32]> {
    fn eq(&self, other: &Self) -> (same: bool) {
        same_digest(&self.hash, &other.hash)
    }
}

impl<T, H> vstd::std_specs::cmp::PartialEqSpecImpl for MerkleRoot<T, H, [u8; 32]> {
    open spec fn obeys_eq_spec() -> bool {
        true
    }

    open spec fn eq_spec(&self, other: &Self) -> bool {
        self@ == other@
    }
}

impl<T, H> Eq for MerkleRoot<T, H, [u8; 32]> {

}

/// The all-zero root. It stands for the empty set: nothing is known to hash to
/// it, so no proof of membership under it is expected to verify.
impl<T, H> Default for MerkleRoot<T, H, [u8; 32]> {
    fn default() -> (root: Self)
        ensures
            all_zero(root@),
    {
        MerkleRoot { hash: [0u8; 32], _spook: PhantomData }
    }
}

/// One step of an inclusion proof: the sibling at that level of the tree and
/// the side on which it stands.
#[derive(Debug, PartialEq, Eq)]
pub enum ProofElement<O> {
    Left(O),
    Right(O),
}

impl<O: Copy> Clone for ProofElement<O> {
    fn clone(&self) -> (copy: Self)
        ensures
            copy == *self,
    {
        match self {
            ProofElement::Left(h) => ProofElement::Left(*h),
            ProofElement::Right(h) => ProofElement::Right(*h),
        }
    }
}

impl<O> ProofElement<O> {
    /// The sibling that this element holds.
    pub open spec fn sibling(self) -> O {
        match self {
            ProofElement::Left(h) => h,
            ProofElement::Right(h) => h,
        }
    }

    /// The same side with another sibling.
    pub open spec fn with_sibling(self, sibling: O) -> Self {
        match self {
            ProofElement::Left(_) => ProofElement::Left(sibling),
            ProofElement::Right(_) => ProofElement::Right(sibling),
        }
    }

    /// The same sibling on the other side.
    pub open spec fn flipped(self) -> Self {
        match self {
            ProofElement::Left(h) => ProofElement::Right(h),
            ProofElement::Right(h) => ProofElement::Left(h),
        }
    }

    /// What is hashed at this step: the left child's encoding, then the
    /// right child's, the sibling on the side that the element names.
    pub open spec fn joined<H>(self, node: O) -> Seq<u8> where H: Hasher<O>, O: Hashable<H> {
        match self {
            ProofElement::Left(h) => h.preimage() + node.preimage(),
            ProofElement::Right(h) => node.preimage() + h.preimage(),
        }
    }

    /// The parent of this element's sibling and `node`.
    pub open spec fn parent<H>(self, node: O) -> O where H: Hasher<O>, O: Hashable<H> {
        H::digest(self.joined::<H>(node))
    }

    /// Concatenate the sibling held here with `sibling`, the node reached
    /// so far, in the proper order and return the hash.
    pub fn merge<H>(&self, sibling: &O) -> (parent: O) where H: Hasher<O>, O: Hashable<H>
        ensures
            parent == self.parent::<H>(*sibling),
    {
        let (a, b) = match self {
            ProofElement::Left(h) => (h, sibling),
            ProofElement::Right(h) => (sibling, h),
        };
        hash::<(&O, &O), H, O>(&(a, b))
    }
}

/// The node reached from `node` by climbing through `proof`, first element first.
pub open spec fn climb<H: Hasher<O>, O: Hashable<H>>(node: O, proof: Seq<ProofElement<O>>) -> O
    decreases proof.len(),
{
    if proof.len() == 0 {
        node
    } else {
        proof.last().parent::<H>(climb::<H, O>(node, proof.drop_last()))
    }
}

/// The root that `proof` gives for `leaf`: the leaf digest is hashed once
/// more, then folded with each sibling from the leaf upwards.
pub open spec fn recomputed_root<H: Hasher<O>, O: Hashable<H>>(
    proof: Seq<ProofElement<O>>,
    leaf: O,
) -> O {
    climb::<H, O>(H::digest(leaf.preimage()), proof)
}

/// Whether `proof` shows `leaf` to be a member of the tree under `root`.
pub open spec fn proves_inclusion<H: Hasher<[u8; 32]>>(
    root: [u8; 32],
    proof: Seq<ProofElement<[u8; 32]>>,
    leaf: [u8; 32],
) -> bool {
    recomputed_root::<H, [u8; 32]>(proof, leaf) == root
}

/// What `proof` has hashed at step `at` on the way up from `node`.
pub open spec fn hashed_at<H: Hasher<[u8; 32]>>(
    node: [u8; 32],
    proof: Seq<ProofElement<[u8; 32]>>,
    at: int,
) -> Seq<u8> {
    proof[at].joined::<H>(climb::<H, [u8; 32]>(node, proof.take(at)))
}

/// What is hashed last when the root is recomputed from `proof` and `leaf`.
pub open spec fn hashed_last<H: Hasher<[u8; 32]>>(
    proof: Seq<ProofElement<[u8; 32]>>,
    leaf: [u8; 32],
) -> Seq<u8> {
    if proof.len() == 0 {
        leaf@
    } else {
        hashed_at::<H>(H::digest(leaf@), proof, proof.len() - 1)
    }
}

/// Two byte strings that differ and have the same digest.
pub open spec fn collide<H: Hasher<[u8; 32]>>(a: Seq<u8>, b: Seq<u8>) -> bool {
    a != b && H::digest(a) == H::digest(b)
}

/// Recomputes the root from `leaf` and `proof` and compares it with `root`.
/// The length of `proof` is not bounded here.
pub fn verify_proof<T, H: Hasher<[u8; 32]>>(
    root: &MerkleRoot<T, H, [u8; 32]>,
    proof: &[ProofElement<[u8; 32]>],
    leaf: Hashed<T, H, [u8; 32]>,
) -> (valid: bool)
    ensures
        valid == proves_inclusion::<H>(root@, proof@, leaf@),
{
    let leaf_doublehash = hash::<[u8; 32], H, [u8; 32]>(leaf.digest());
    let mut expected_root = leaf_doublehash;
    let mut i: usize = 0;
    assert(proof@.take(0) =~= Seq::empty());
    while i < proof.len()
        invariant
            i <= proof.len(),
            expected_root == climb::<H, [u8; 32]>(leaf_doublehash, proof@.take(i as int)),
        decreases proof.len() - i,
    {
        expected_root = proof[i].merge::<H>(&expected_root);
        proof {
            let next = proof@.take(i + 1);
            assert(next.drop_last() =~= proof@.take(i as int));
            assert(next.last() == proof@[i as int]);
        }
        i += 1;
    }
    assert(proof@.take(i as int) =~= proof@);
    same_digest(&expected_root, &root.hash)
}

/// A 32-byte digest contributes its 32 bytes to a preimage, as they are.
pub proof fn lemma_digest_encodes_as_its_bytes<H: Hasher<[u8; 32]>>(digest: [u8; 32])
    ensures
        <[u8; 32] as Hashable<H>>::preimage(&digest) == digest@,
        digest@.len() == 32,
{
    lemma_bytes_encode_as_themselves::<H>(digest@);
}

/// A step hashes 64 bytes: the left child's 32, then the right child's 32.
pub proof fn lemma_joined_is_left_then_right<H: Hasher<[u8; 32]>>(
    element: ProofElement<[u8; 32]>,
    node: [u8; 32],
)
    ensures
        element.joined::<H>(node).len() == 64,
        element matches ProofElement::Left(h) ==> element.joined::<H>(node) == h@ + node@,
        element matches ProofElement::Right(h) ==> element.joined::<H>(node) == node@ + h@,
{
    lemma_digest_encodes_as_its_bytes::<H>(node);
    lemma_digest_encodes_as_its_bytes::<H>(element.sibling());
}

/// The recomputed root is the digest of what was hashed last: of the leaf
/// digest for an empty proof, of the topmost pair otherwise.
pub proof fn lemma_root_is_a_digest<H: Hasher<[u8; 32]>>(
    proof: Seq<ProofElement<[u8; 32]>>,
    leaf: [u8; 32],
)
    ensures
        recomputed_root::<H, [u8; 32]>(proof, leaf) == H::digest(hashed_last::<H>(proof, leaf)),
{
    lemma_digest_encodes_as_its_bytes::<H>(leaf);
    if proof.len() > 0 {
        assert(proof.take(proof.len() - 1) =~= proof.drop_last());
    }
}

/// An empty proof is valid exactly when the root is the digest of the leaf
/// digest: the tree has this one member.
pub proof fn lemma_empty_proof<H: Hasher<[u8; 32]>>(root: [u8; 32], leaf: [u8; 32])
    ensures
        proves_inclusion::<H>(root, Seq::empty(), leaf) <==> root == H::digest(leaf@),
{
    lemma_digest_encodes_as_its_bytes::<H>(leaf);
}

/// Under the all-zero root a proof is valid only if what it hashed last
/// is a preimage of the all-zero digest.
pub proof fn lemma_zero_root_needs_a_zero_preimage<H: Hasher<[u8; 32]>>(
    root: [u8; 32],
    proof: Seq<ProofElement<[u8; 32]>>,
    leaf: [u8; 32],
)
    requires
        all_zero(root),
    ensures
        proves_inclusion::<H>(root, proof, leaf) ==> all_zero(
            H::digest(hashed_last::<H>(proof, leaf)),
        ),
{
    lemma_root_is_a_digest::<H>(proof, leaf);
}

/// Joining a node to one and the same element tells nodes apart.
proof fn lemma_joined_tells_nodes_apart<H: Hasher<[u8; 32]>>(
    element: ProofElement<[u8; 32]>,
    a: [u8; 32],
    b: [u8; 32],
)
    requires
        element.joined::<H>(a) == element.joined::<H>(b),
    ensures
        a == b,
{
    lemma_joined_is_left_then_right::<H>(element, a);
    lemma_joined_is_left_then_right::<H>(element, b);
    let h = element.sibling();
    match element {
        ProofElement::Left(_) => {
            assert((h@ + a@).subrange(32, 64) =~= a@);
            assert((h@ + b@).subrange(32, 64) =~= b@);
        },
        ProofElement::Right(_) => {
            assert((a@ + h@).subrange(0, 32) =~= a@);
            assert((b@ + h@).subrange(0, 32) =~= b@);
        },
    }
    assert(a@ == b@);
    assert(a =~= b);
}

/// Two proofs of one length that differ in the step `at` alone, and hash
/// different pairs there, lead from one node to the same root only through
/// a collision: at some step from `at` upwards the two hash different bytes
/// to the same digest.
pub proof fn lemma_changed_step_needs_a_collision<H: Hasher<[u8; 32]>>(
    node: [u8; 32],
    proof: Seq<ProofElement<[u8; 32]>>,
    tampered: Seq<ProofElement<[u8; 32]>>,
    at: int,
)
    requires
        proof.len() == tampered.len(),
        0 <= at < proof.len(),
        forall|j: int| 0 <= j < proof.len() && j != at ==> proof[j] == tampered[j],
        hashed_at::<H>(node, proof, at) != hashed_at::<H>(node, tampered, at),
    ensures
        climb::<H, [u8; 32]>(node, proof) == climb::<H, [u8; 32]>(node, tampered) ==> exists|
            j: int,
        |
            at <= j < proof.len() && collide::<H>(
                #[trigger] hashed_at::<H>(node, proof, j),
                hashed_at::<H>(node, tampered, j),
            ),
    decreases proof.len(),
{
    let top = proof.len() - 1;
    assert(proof.take(top) =~= proof.drop_last());
    assert(tampered.take(top) =~= tampered.drop_last());
    if climb::<H, [u8; 32]>(node, proof) == climb::<H, [u8; 32]>(node, tampered) {
        if hashed_at::<H>(node, proof, top) != hashed_at::<H>(node, tampered, top) {
            assert(collide::<H>(
                hashed_at::<H>(node, proof, top),
                hashed_at::<H>(node, tampered, top),
            ));
        } else {
            // the topmost step is the same in both, so the nodes below it are
            assert(top != at);
            assert(proof[top] == tampered[top]);
            lemma_joined_tells_nodes_apart::<H>(
                proof[top],
                climb::<H, [u8; 32]>(node, proof.drop_last()),
                climb::<H, [u8; 32]>(node, tampered.drop_last()),
            );
            assert(proof.drop_last().take(at) =~= proof.take(at));
            assert(tampered.drop_last().take(at) =~= tampered.take(at));
            lemma_changed_step_needs_a_collision::<H>(
                node,
                proof.drop_last(),
                tampered.drop_last(),
                at,
            );
            let j = choose|j: int|
                at <= j < top && collide::<H>(
                    #[trigger] hashed_at::<H>(node, proof.drop_last(), j),
                    hashed_at::<H>(node, tampered.drop_last(), j),
                );
            assert(proof.drop_last().take(j) =~= proof.take(j));
            assert(tampered.drop_last().take(j) =~= tampered.take(j));
            assert(collide::<H>(
                hashed_at::<H>(node, proof, j),
                hashed_at::<H>(node, tampered, j),
            ));
        }
    }
}

/// Replacing the sibling of one step of a valid proof by any other digest
/// makes verification fail, unless the two proofs exhibit a collision of
/// the hash function.
pub proof fn lemma_changed_sibling_breaks_the_proof<H: Hasher<[u8; 32]>>(
    root: [u8; 32],
    proof: Seq<ProofElement<[u8; 32]>>,
    leaf: [u8; 32],
    at: int,
    sibling: [u8; 32],
)
    requires
        proves_inclusion::<H>(root, proof, leaf),
        0 <= at < proof.len(),
        sibling != proof[at].sibling(),
    ensures
        ({
            let tampered = proof.update(at, proof[at].with_sibling(sibling));
            let node = H::digest(leaf@);
            proves_inclusion::<H>(root, tampered, leaf) ==> exists|j: int|
                at <= j < proof.len() && collide::<H>(
                    #[trigger] hashed_at::<H>(node, proof, j),
                    hashed_at::<H>(node, tampered, j),
                )
        }),
{
    let tampered = proof.update(at, proof[at].with_sibling(sibling));
    let node = H::digest(leaf@);
    lemma_digest_encodes_as_its_bytes::<H>(leaf);
    let below = climb::<H, [u8; 32]>(node, proof.take(at));
    assert(tampered.take(at) =~= proof.take(at));
    lemma_joined_is_left_then_right::<H>(proof[at], below);
    lemma_joined_is_left_then_right::<H>(tampered[at], below);
    let honest = proof[at].sibling();
    assert(honest@ != sibling@) by {
        if honest@ == sibling@ {
            assert(honest =~= sibling);
        }
    }
    assert(hashed_at::<H>(node, proof, at) != hashed_at::<H>(node, tampered, at)) by {
        match proof[at] {
            ProofElement::Left(_) => {
                assert((honest@ + below@).subrange(0, 32) =~= honest@);
                assert((sibling@ + below@).subrange(0, 32) =~= sibling@);
            },
            ProofElement::Right(_) => {
                assert((below@ + honest@).subrange(32, 64) =~= honest@);
                assert((below@ + sibling@).subrange(32, 64) =~= sibling@);
            },
        }
    }
    lemma_changed_step_needs_a_collision::<H>(node, proof, tampered, at);
}

/// Flipping the side of one step of a valid proof makes verification fail,
/// unless the two proofs exhibit a collision of the hash function. A step
/// whose sibling equals the node it is paired with hashes the same bytes
/// on either side: there the flip changes nothing.
pub proof fn lemma_flipped_side_breaks_the_proof<H: Hasher<[u8; 32]>>(
    root: [u8; 32],
    proof: Seq<ProofElement<[u8; 32]>>,
    leaf: [u8; 32],
    at: int,
)
    requires
        proves_inclusion::<H>(root, proof, leaf),
        0 <= at < proof.len(),
        proof[at].sibling() != climb::<H, [u8; 32]>(H::digest(leaf@), proof.take(at)),
    ensures
        ({
            let tampered = proof.update(at, proof[at].flipped());
            let node = H::digest(leaf@);
            proves_inclusion::<H>(root, tampered, leaf) ==> exists|j: int|
                at <= j < proof.len() && collide::<H>(
                    #[trigger] hashed_at::<H>(node, proof, j),
                    hashed_at::<H>(node, tampered, j),
                )
        }),
{
    let tampered = proof.update(at, proof[at].flipped());
    let node = H::digest(leaf@);
    lemma_digest_encodes_as_its_bytes::<H>(leaf);
    let below = climb::<H, [u8; 32]>(node, proof.take(at));
    assert(tampered.take(at) =~= proof.take(at));
    lemma_joined_is_left_then_right::<H>(proof[at], below);
    lemma_joined_is_left_then_right::<H>(tampered[at], below);
    let sibling = proof[at].sibling();
    assert(sibling@ != below@) by {
        if sibling@ == below@ {
            assert(sibling =~= below);
        }
    }
    assert(hashed_at::<H>(node, proof, at) != hashed_at::<H>(node, tampered, at)) by {
        assert((sibling@ + below@).subrange(0, 32) =~= sibling@);
        assert((below@ + sibling@).subrange(0, 32) =~= below@);
    }
    lemma_changed_step_needs_a_collision::<H>(node, proof, tampered, at);
}

} // verus!
