pub mod hasher;
pub mod ledger;
pub mod merkle;
pub mod store;

use crate::hasher::{all_zero, hash, Hashable, Hashed, Hasher};
use crate::ledger::Ledger;
use crate::merkle::{
    hashed_last, lemma_zero_root_needs_a_zero_preimage, proves_inclusion, verify_proof,
    MerkleRoot, ProofElement,
};
use crate::store::{Key, Table};
use vstd::prelude::*;

verus! {

/// Max proof size for revocations and suspensions. A proof of this length
/// reaches a tree of `2 ** MAX_PROOF_SIZE` administrators. Proof verification
/// does not enforce it: a caller that wants the bound checks the length first.
pub const MAX_PROOF_SIZE: usize = 16;

/// The types a registry is built over.
pub trait Trait {
    /// Who may call: an administrator is a member of a tree of these.
    type AccountId: Hashable<Self::TreeHash>;

    /// The time at which an anchor is created.
    type BlockNumber: Copy;

    /// The hash function used when constructing and verifying Merkle proofs.
    type TreeHash: Hasher<[u8; 32]>;
}

/// Some arbitrary hashable document.
pub struct Document;

/// `u64::MAX` is around 584_942_417_355 years in the future.
pub type UnixTimeSeconds = u64;

/// An anchor's record: the time of its creation, until it is revoked.
#[derive(Debug, PartialEq, Eq)]
pub enum Revokable<T> {
    NotRevoked(T),
    Revoked,
}

impl<T: Copy> Clone for Revokable<T> {
    fn clone(&self) -> (copy: Self)
        ensures
            copy == *self,
    {
        match self {
            Revokable::NotRevoked(at) => Revokable::NotRevoked(*at),
            Revokable::Revoked => Revokable::Revoked,
        }
    }
}

impl<T: Copy> Copy for Revokable<T> {

}

/// Why a request was turned down. The registry is left as it was.
#[derive(Clone, Copy, Debug, PartialEq, Eq)]
pub enum Error {
    /// There is a record under this administrators' root and document root
    /// already, revoked or not.
    AlreadyAnchored,
    /// The anchor has been revoked before.
    AlreadyRevoked,
    /// The proof does not show the caller to be one of the administrators.
    InvalidProof,
    /// The leaf is suspended already, until the given time or longer.
    SuspensionNotExtended,
}

/// The registry of anchors and suspensions.
pub struct Module<T: Trait> {
    anchors: Table<Revokable<T::BlockNumber>>,
    suspended_leaves: Table<UnixTimeSeconds>,
}

impl<T: Trait> View for Module<T> {
    type V = Ledger<T::BlockNumber>;

    closed spec fn view(&self) -> Ledger<T::BlockNumber> {
        Ledger { anchors: self.anchors@, suspensions: self.suspended_leaves@ }
    }
}

impl<T: Trait> Module<T> {
    /// Whether `proof` shows `sender` to be a member of the tree under `admins`.
    pub open spec fn authorizes(
        admins: [u8; 32],
        proof: Seq<ProofElement<[u8; 32]>>,
        sender: T::AccountId,
    ) -> bool {
        proves_inclusion::<T::TreeHash>(admins, proof, T::TreeHash::digest(sender.preimage()))
    }

    /// The registry without records.
    pub fn new() -> (module: Self)
        ensures
            module@ == Ledger::<T::BlockNumber>::empty(),
    {
        Module { anchors: Table::new(), suspended_leaves: Table::new() }
    }

    /// Hash an account with the tree's hash function.
    pub fn account_id_hash(account: &T::AccountId) -> (hashed: Hashed<
        T::AccountId,
        T::TreeHash,
        [u8; 32],
    >)
        ensures
            hashed@ == T::TreeHash::digest(account.preimage()),
    {
        Hashed::prehashed(hash::<T::AccountId, T::TreeHash, [u8; 32]>(account))
    }

    /// Anchor `root` at time `now`. Anyone who can prove their membership in
    /// the set represented by `admins` is authorized to permanently revoke
    /// this anchor. If `admins` is all zeros, the anchor is irrevocable.
    pub fn create_anchor(
        &mut self,
        now: T::BlockNumber,
        admins: MerkleRoot<T::AccountId, T::TreeHash, [u8; 32]>,
        root: MerkleRoot<Document, T::TreeHash, [u8; 32]>,
    ) -> (outcome: Result<(), Error>)
        ensures
            (final(self)@, outcome) == old(self)@.create_anchor((admins@, root@), now),
    {
        let key: Key = (*admins.digest(), *root.digest());
        if self.anchors.contains_key(&key) {
            return Err(Error::AlreadyAnchored);
        }
        self.anchors.insert(key, Revokable::NotRevoked(now));
        Ok(())
    }

    /// Revoke the anchor of `root` under `admins` for good. An anchor can be
    /// revoked even before it is posted.
    pub fn revoke_anchor(
        &mut self,
        sender: &T::AccountId,
        admins: MerkleRoot<T::AccountId, T::TreeHash, [u8; 32]>,
        root: MerkleRoot<Document, T::TreeHash, [u8; 32]>,
        proof: Vec<ProofElement<[u8; 32]>>,
    ) -> (outcome: Result<(), Error>)
        ensures
            (final(self)@, outcome) == old(self)@.revoke_anchor(
                (admins@, root@),
                Self::authorizes(admins@, proof@, *sender),
            ),
    {
        let valid = verify_proof(&admins, proof.as_slice(), Self::account_id_hash(sender));
        if !valid {
            return Err(Error::InvalidProof);
        }
        let key: Key = (*admins.digest(), *root.digest());
        match self.anchors.get(&key) {
            Some(Revokable::Revoked) => {
                return Err(Error::AlreadyRevoked);
            },
            _ => {},
        }
        self.anchors.insert(key, Revokable::Revoked);
        Ok(())
    }

    /// Suspend `leaf` until `suspend_end`. If `suspend_end` is in the past,
    /// this has no semantic effect. Using `u64::MAX` for `suspend_end` is a
    /// permanent revocation.
    pub fn suspend_leaf(
        &mut self,
        sender: &T::AccountId,
        proof: Vec<ProofElement<[u8; 32]>>,
        admins: MerkleRoot<T::AccountId, T::TreeHash, [u8; 32]>,
        leaf: Hashed<Document, T::TreeHash, [u8; 32]>,
        suspend_end: UnixTimeSeconds,
    ) -> (outcome: Result<(), Error>)
        ensures
            (final(self)@, outcome) == old(self)@.suspend_leaf(
                (admins@, leaf@),
                Self::authorizes(admins@, proof@, *sender),
                suspend_end,
            ),
    {
        let valid = verify_proof(&admins, proof.as_slice(), Self::account_id_hash(sender));
        if !valid {
            return Err(Error::InvalidProof);
        }
        let key: Key = (*admins.digest(), *leaf.digest());
        if let Some(end) = self.suspended_leaves.get(&key) {
            if suspend_end <= *end {
                return Err(Error::SuspensionNotExtended);
            }
        }
        self.suspended_leaves.insert(key, suspend_end);
        Ok(())
    }

    /// The record of `root` under `auths`, if the anchor was ever created
    /// or revoked.
    pub fn lookup_anchor(
        &self,
        auths: &MerkleRoot<T::AccountId, T::TreeHash, [u8; 32]>,
        root: &MerkleRoot<Document, T::TreeHash, [u8; 32]>,
    ) -> (record: Option<Revokable<T::BlockNumber>>)
        ensures
            record == self@.anchor((auths@, root@)),
    {
        let key: Key = (*auths.digest(), *root.digest());
        match self.anchors.get(&key) {
            Some(record) => Some(*record),
            None => None,
        }
    }

    /// The time until which `auths` suspended `leaf`, if they ever did.
    pub fn lookup_suspension(
        &self,
        auths: &MerkleRoot<T::AccountId, T::TreeHash, [u8; 32]>,
        leaf: &Hashed<Document, T::TreeHash, [u8; 32]>,
    ) -> (end: Option<UnixTimeSeconds>)
        ensures
            end == self@.suspended_until((auths@, leaf@)),
    {
        let key: Key = (*auths.digest(), *leaf.digest());
        match self.suspended_leaves.get(&key) {
            Some(end) => Some(*end),
            None => None,
        }
    }

    /// Check if there is an active suspension on `leaf` issued by the `auths` set.
    pub fn leaf_suspended_by(
        &self,
        auths: &MerkleRoot<T::AccountId, T::TreeHash, [u8; 32]>,
        leaf: &Hashed<Document, T::TreeHash, [u8; 32]>,
        now: UnixTimeSeconds,
    ) -> (suspended: bool)
        ensures
            suspended == self@.is_suspended((auths@, leaf@), now),
    {
        let key: Key = (*auths.digest(), *leaf.digest());
        match self.suspended_leaves.get(&key) {
            None => false,
            Some(suspension_end) => now <= *suspension_end,
        }
    }
}

/// The all-zero administrators' root stands for the empty set: under it a
/// revocation or a suspension fails with `InvalidProof` for every caller and
/// every proof, the empty one too, and the registry stays as it was. The one
/// way out would be a proof that ends in a preimage of the all-zero digest.
pub proof fn lemma_zero_admins_cannot_act<T: Trait>(
    ledger: Ledger<T::BlockNumber>,
    admins: [u8; 32],
    target: [u8; 32],
    proof: Seq<ProofElement<[u8; 32]>>,
    sender: T::AccountId,
    suspend_until: UnixTimeSeconds,
)
    requires
        all_zero(admins),
        !all_zero(
            T::TreeHash::digest(
                hashed_last::<T::TreeHash>(proof, T::TreeHash::digest(sender.preimage())),
            ),
        ),
    ensures
        !Module::<T>::authorizes(admins, proof, sender),
        ledger.revoke_anchor((admins, target), Module::<T>::authorizes(admins, proof, sender))
            == (ledger, Err::<(), Error>(Error::InvalidProof)),
        ledger.suspend_leaf(
            (admins, target),
            Module::<T>::authorizes(admins, proof, sender),
            suspend_until,
        ) == (ledger, Err::<(), Error>(Error::InvalidProof)),
{
    lemma_zero_root_needs_a_zero_preimage::<T::TreeHash>(
        admins,
        proof,
        T::TreeHash::digest(sender.preimage()),
    );
}

} // verus!
