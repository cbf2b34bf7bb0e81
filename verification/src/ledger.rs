use crate::store::Key;
use crate::{Error, Revokable, UnixTimeSeconds};
use vstd::prelude::*;

verus! {

/// The registry as a mathematical value: the anchor records and the
/// suspension records, each keyed by the administrators' root and the digest
/// that the record is about.
pub struct Ledger<B> {
    pub anchors: Map<Key, Revokable<B>>,
    pub suspensions: Map<Key, UnixTimeSeconds>,
}

impl<B> Ledger<B> {
    pub open spec fn empty() -> Self {
        Ledger { anchors: Map::empty(), suspensions: Map::empty() }
    }

    /// The anchor record under `key`, if there is one.
    pub open spec fn anchor(self, key: Key) -> Option<Revokable<B>> {
        if self.anchors.contains_key(key) {
            Some(self.anchors[key])
        } else {
            None
        }
    }

    /// Whether the anchor under `key` has been revoked.
    pub open spec fn is_revoked(self, key: Key) -> bool {
        self.anchor(key) == Some(Revokable::<B>::Revoked)
    }

    /// The time until which the leaf under `key` is suspended, if it ever was.
    pub open spec fn suspended_until(self, key: Key) -> Option<UnixTimeSeconds> {
        if self.suspensions.contains_key(key) {
            Some(self.suspensions[key])
        } else {
            None
        }
    }

    /// Whether the leaf under `key` is suspended at `now`. The bound is
    /// inclusive: at the stored time itself the leaf is still suspended.
    pub open spec fn is_suspended(self, key: Key, now: UnixTimeSeconds) -> bool {
        self.suspensions.contains_key(key) && now <= self.suspensions[key]
    }

    /// Anchoring under `key` at time `now`: the ledger afterwards and the outcome.
    pub open spec fn create_anchor(self, key: Key, now: B) -> (Self, Result<(), Error>) {
        if self.anchors.contains_key(key) {
            (self, Err(Error::AlreadyAnchored))
        } else {
            (
                Ledger { anchors: self.anchors.insert(key, Revokable::NotRevoked(now)), ..self },
                Ok(()),
            )
        }
    }

    /// Revoking the anchor under `key` by a caller whose membership proof
    /// was found `authorized` or not: the ledger afterwards and the outcome.
    pub open spec fn revoke_anchor(self, key: Key, authorized: bool) -> (Self, Result<(), Error>) {
        if !authorized {
            (self, Err(Error::InvalidProof))
        } else if self.is_revoked(key) {
            (self, Err(Error::AlreadyRevoked))
        } else {
            (Ledger { anchors: self.anchors.insert(key, Revokable::Revoked), ..self }, Ok(()))
        }
    }

    /// Suspending the leaf under `key` until `suspend_until` by a caller whose
    /// membership proof was found `authorized` or not: the ledger afterwards
    /// and the outcome.
    pub open spec fn suspend_leaf(
        self,
        key: Key,
        authorized: bool,
        suspend_until: UnixTimeSeconds,
    ) -> (Self, Result<(), Error>) {
        if !authorized {
            (self, Err(Error::InvalidProof))
        } else if self.suspensions.contains_key(key) && suspend_until <= self.suspensions[key] {
            (self, Err(Error::SuspensionNotExtended))
        } else {
            (Ledger { suspensions: self.suspensions.insert(key, suspend_until), ..self }, Ok(()))
        }
    }
}

/// A request to change the ledger, with the verdict on the caller's proof
/// where the request needs one.
pub enum Request<B> {
    CreateAnchor { key: Key, now: B },
    RevokeAnchor { key: Key, authorized: bool },
    SuspendLeaf { key: Key, authorized: bool, suspend_until: UnixTimeSeconds },
}

impl<B> Ledger<B> {
    /// The ledger after `request` and the outcome of the request.
    pub open spec fn apply(self, request: Request<B>) -> (Self, Result<(), Error>) {
        match request {
            Request::CreateAnchor { key, now } => self.create_anchor(key, now),
            Request::RevokeAnchor { key, authorized } => self.revoke_anchor(key, authorized),
            Request::SuspendLeaf { key, authorized, suspend_until } => self.suspend_leaf(
                key,
                authorized,
                suspend_until,
            ),
        }
    }
}

/// A request that fails leaves the ledger as it was.
pub proof fn lemma_failure_changes_nothing<B>(ledger: Ledger<B>, request: Request<B>)
    ensures
        ledger.apply(request).1 is Err ==> ledger.apply(request).0 == ledger,
{
}

/// A request changes no record but the one under its own key, and no
/// record of the other kind.
pub proof fn lemma_other_records_are_untouched<B>(
    ledger: Ledger<B>,
    request: Request<B>,
    other: Key,
)
    ensures
        !(request matches Request::CreateAnchor { key, .. } && key == other) && !(
        request matches Request::RevokeAnchor { key, .. } && key == other) ==> ledger.apply(
            request,
        ).0.anchor(other) == ledger.anchor(other),
        !(request matches Request::SuspendLeaf { key, .. } && key == other) ==> ledger.apply(
            request,
        ).0.suspended_until(other) == ledger.suspended_until(other),
{
}

/// No request removes a record.
pub proof fn lemma_records_are_never_deleted<B>(ledger: Ledger<B>, request: Request<B>, key: Key)
    ensures
        ledger.anchor(key) is Some ==> ledger.apply(request).0.anchor(key) is Some,
        ledger.suspended_until(key) is Some ==> ledger.apply(request).0.suspended_until(key)
            is Some,
{
}

/// Once revoked, an anchor stays revoked whatever is requested.
pub proof fn lemma_revocation_is_permanent<B>(ledger: Ledger<B>, request: Request<B>, key: Key)
    requires
        ledger.is_revoked(key),
    ensures
        ledger.apply(request).0.is_revoked(key),
{
}

/// An anchor keeps the time of its creation until it is revoked.
pub proof fn lemma_creation_time_is_kept<B>(
    ledger: Ledger<B>,
    request: Request<B>,
    key: Key,
    created: B,
)
    requires
        ledger.anchor(key) == Some(Revokable::NotRevoked(created)),
    ensures
        ledger.apply(request).0.anchor(key) == Some(Revokable::NotRevoked(created))
            || ledger.apply(request).0.is_revoked(key),
{
}

/// A suspension is never shortened or cleared: whatever is requested, the
/// leaf stays suspended at least as long as before.
pub proof fn lemma_suspension_never_shortens<B>(
    ledger: Ledger<B>,
    request: Request<B>,
    key: Key,
    now: UnixTimeSeconds,
)
    ensures
        ledger.suspended_until(key) matches Some(before) ==> ledger.apply(
            request,
        ).0.suspended_until(key) matches Some(after) && before <= after,
        ledger.is_suspended(key, now) ==> ledger.apply(request).0.is_suspended(key, now),
{
}

/// A suspension until the largest time is final: no request changes it.
pub proof fn lemma_permanent_suspension_is_terminal<B>(
    ledger: Ledger<B>,
    request: Request<B>,
    key: Key,
)
    requires
        ledger.suspended_until(key) == Some(u64::MAX),
    ensures
        ledger.apply(request).0.suspended_until(key) == Some(u64::MAX),
        request matches Request::SuspendLeaf { key: target, authorized, .. } && target == key
            && authorized ==> ledger.apply(request).1 == Err::<(), Error>(
            Error::SuspensionNotExtended,
        ),
{
}

/// Anchoring twice under one key: the second request fails with
/// `AlreadyAnchored`, whoever makes it and whenever.
pub proof fn lemma_second_anchor_is_refused<B>(ledger: Ledger<B>, key: Key, first: B, second: B)
    ensures
        ({
            let once = ledger.create_anchor(key, first).0;
            once.create_anchor(key, second) == (once, Err::<(), Error>(Error::AlreadyAnchored))
        }),
{
}

/// An anchor that is not revoked yet can be revoked by an administrator,
/// also where it was never created; an attempt to create it afterwards fails.
pub proof fn lemma_revocation_needs_no_anchor<B>(ledger: Ledger<B>, key: Key, now: B)
    requires
        !ledger.is_revoked(key),
    ensures
        ({
            let (revoked, outcome) = ledger.revoke_anchor(key, true);
            &&& outcome == Ok::<(), Error>(())
            &&& revoked.is_revoked(key)
            &&& revoked.create_anchor(key, now) == (
                revoked,
                Err::<(), Error>(Error::AlreadyAnchored),
            )
        }),
{
}

/// Revoking twice under one key: the second request of an administrator
/// fails with `AlreadyRevoked`.
pub proof fn lemma_second_revocation_is_refused<B>(ledger: Ledger<B>, key: Key)
    ensures
        ({
            let once = ledger.revoke_anchor(key, true).0;
            once.revoke_anchor(key, true) == (once, Err::<(), Error>(Error::AlreadyRevoked))
        }),
{
}

/// After a suspension until `first` was granted, an administrator's request
/// to suspend until `second` is granted exactly if `second` is later than
/// `first`, and fails with `SuspensionNotExtended` otherwise.
pub proof fn lemma_suspension_is_only_extended<B>(
    ledger: Ledger<B>,
    key: Key,
    first: UnixTimeSeconds,
    second: UnixTimeSeconds,
)
    requires
        ledger.suspend_leaf(key, true, first).1 is Ok,
    ensures
        ({
            let once = ledger.suspend_leaf(key, true, first).0;
            let (twice, outcome) = once.suspend_leaf(key, true, second);
            &&& once.suspended_until(key) == Some(first)
            &&& second > first ==> outcome == Ok::<(), Error>(()) && twice.suspended_until(key)
                == Some(second)
            &&& second <= first ==> outcome == Err::<(), Error>(Error::SuspensionNotExtended)
                && twice == once
        }),
{
}

/// A leaf that was never suspended under `key` is suspended on an
/// administrator's first request, until whatever time is asked for.
pub proof fn lemma_first_suspension_is_granted<B>(
    ledger: Ledger<B>,
    key: Key,
    suspend_until: UnixTimeSeconds,
)
    requires
        ledger.suspended_until(key) is None,
    ensures
        ledger.suspend_leaf(key, true, suspend_until).1 == Ok::<(), Error>(()),
        ledger.suspend_leaf(key, true, suspend_until).0.suspended_until(key) == Some(
            suspend_until,
        ),
{
}

/// A leaf is suspended at `now` exactly if a suspension is recorded and
/// `now` is not after its end.
pub proof fn lemma_suspended_up_to_and_including_the_end<B>(
    ledger: Ledger<B>,
    key: Key,
    now: UnixTimeSeconds,
)
    ensures
        ledger.is_suspended(key, now) <==> (ledger.suspended_until(key) matches Some(end) && now
            <= end),
{
}

/// Without a valid proof neither a revocation nor a suspension is carried
/// out: the request fails with `InvalidProof`, whatever the records say.
pub proof fn lemma_unauthorized_requests_are_refused<B>(
    ledger: Ledger<B>,
    key: Key,
    suspend_until: UnixTimeSeconds,
)
    ensures
        ledger.revoke_anchor(key, false) == (ledger, Err::<(), Error>(Error::InvalidProof)),
        ledger.suspend_leaf(key, false, suspend_until) == (
            ledger,
            Err::<(), Error>(Error::InvalidProof),
        ),
{
}

} // verus!
