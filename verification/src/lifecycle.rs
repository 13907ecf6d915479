//! The subscription lifecycle: pending → verified → removed.
//!
//! Verification is enumeration-resistant — a missing pending record and a
//! wrong token yield the same "not found" result — and idempotent: a second
//! verification with the same valid token succeeds again and leaves exactly
//! one subscriber record for the email.

use vstd::prelude::*;
use crate::email::EmailAddr;
use crate::store::{Store, StoreError};
use crate::strategies::{valid_strategy, DigestStrategy};
use crate::types::{PendingSubscription, Subscriber, SubscriberV, Token, DAY_SECONDS};

verus! {

/// Create a pending subscription for an email address, overwriting any
/// earlier pending record for it (resend semantics, not an error). The
/// record carries a fresh verification token and expires one day after
/// `now`. An already-subscribed email still gets a pending record; callers
/// that want update semantics check for an existing subscriber first.
pub fn create_pending_subscription(
    store: &mut Store,
    email: &EmailAddr,
    strategy: DigestStrategy,
    now: i64,
) -> (r: Result<PendingSubscription, StoreError>)
    requires
        old(store).wf(),
        email.wf(),
        valid_strategy(strategy),
        now + DAY_SECONDS <= i64::MAX,
    ensures
        final(store).wf(),
        r is Ok,
        ({
            let p = r->Ok_0;
            p.wf() && p@.email == email@ && p@.strategy == strategy && p@.created_at == now as int
                && p@.expires_at == now + DAY_SECONDS && final(store).pends() == old(store).pends().insert(email@, p@)
        }),
        final(store).subs() == old(store).subs(),
        final(store).digs() == old(store).digs(),
        final(store).snaps() == old(store).snaps(),
{
    let pending = PendingSubscription::new(email.clone(), strategy, now);
    let copy = pending.clone();
    store.upsert_pending_subscription(copy);
    Ok(pending)
}

/// Update an existing subscriber's digest strategy in place, preserving
/// `subscribed_at` and the unsubscribe token, and never creating a second
/// record for the email. Returns the previous strategy so the caller can
/// describe the change.
pub fn update_subscription_strategy(
    store: &mut Store,
    existing: Subscriber,
    new_strategy: DigestStrategy,
) -> (r: Result<DigestStrategy, StoreError>)
    requires
        old(store).wf(),
        existing.wf(),
        valid_strategy(new_strategy),
    ensures
        final(store).wf(),
        r is Ok,
        r->Ok_0 == existing.strategy,
        final(store).subs() == old(store).subs().insert(
            existing@.email,
            SubscriberV {
                email: existing@.email,
                strategy: new_strategy,
                subscribed_at: existing@.subscribed_at,
                token: existing@.token,
            },
        ),
        final(store).pends() == old(store).pends(),
        final(store).digs() == old(store).digs(),
        final(store).snaps() == old(store).snaps(),
{
    let old_strategy = existing.strategy;
    let updated = Subscriber {
        strategy: new_strategy,
        email: existing.email,
        subscribed_at: existing.subscribed_at,
        unsubscribe_token: existing.unsubscribe_token,
    };
    store.upsert_subscriber(updated);
    Ok(old_strategy)
}

/// Verify a pending subscription by email and token.
///
/// The token is compared before anything else; a missing pending record and
/// a mismatched token both yield `Ok(None)`, indistinguishable to the
/// caller. On a match, a verified subscriber is created (or overwritten)
/// with a freshly generated unsubscribe token, and the pending record is
/// left in place, so a repeated call with the same token succeeds again
/// without error and without accumulating a second record for the email.
/// Reclaiming expired pending records is the store's concern; this path
/// does not check `expires_at` itself.
pub fn verify_subscription(
    store: &mut Store,
    email: &EmailAddr,
    token: &Token,
    now: i64,
) -> (r: Result<Option<Subscriber>, StoreError>)
    requires
        old(store).wf(),
        email.wf(),
    ensures
        final(store).wf(),
        match r {
            Ok(None) => (!old(store).pends().dom().contains(email@) || old(store).pends()[email@].token
                != token@) && final(store).subs() == old(store).subs() && final(store).pends()
                == old(store).pends() && final(store).digs() == old(store).digs() && final(store).snaps() == old(store).snaps(),
            Ok(Some(s)) => old(store).pends().dom().contains(email@) && old(store).pends()[email@].token
                == token@ && s.wf() && s@.email == email@ && s@.strategy == old(store).pends()[email@].strategy && s@.subscribed_at == now as int && s@.token.len() == 36
                && final(store).subs() == old(store).subs().insert(email@, s@) && final(store).pends() == old(store).pends() && final(store).digs() == old(store).digs() && final(store).snaps() == old(store).snaps(),
            Err(_) => false,
        },
{
    let pending = match store.get_pending_subscription(email) {
        Some(p) => p,
        None => {
            return Ok(None);
        },
    };
    if !pending.token.eq_token(token) {
        return Ok(None);
    }
    let subscriber = Subscriber::new(pending.email, pending.strategy, now);
    let copy = subscriber.clone();
    store.upsert_subscriber(copy);
    Ok(Some(subscriber))
}

/// Remove a subscriber by their unsubscribe token, through the secondary
/// token index.
///
/// Returns `Ok(false)` when no subscriber carries the token, `Ok(true)` when
/// exactly one did and its record is gone, and an integrity error — with the
/// store untouched — when several carry it.
pub fn remove_subscriber(store: &mut Store, token: &Token) -> (r: Result<bool, StoreError>)
    requires
        old(store).wf(),
    ensures
        final(store).wf(),
        final(store).pends() == old(store).pends(),
        final(store).digs() == old(store).digs(),
        final(store).snaps() == old(store).snaps(),
        ({
            let matches = Store::token_matches(old(store).subs_seq(), token@);
            match r {
                Ok(false) => matches.len() == 0 && final(store).subs() == old(store).subs(),
                Ok(true) => matches.len() == 1 && final(store).subs() == old(store).subs().remove(
                    matches[0]@.email,
                ) && !final(store).subs().dom().contains(matches[0]@.email),
                Err(e) => e == StoreError::DuplicateToken && matches.len() > 1 && final(store).subs() == old(store).subs(),
            }
        }),
{
    let subscriber = match store.get_subscriber_by_unsubscribe_token(token) {
        Ok(Some(s)) => s,
        Ok(None) => {
            return Ok(false);
        },
        Err(e) => {
            return Err(e);
        },
    };
    store.remove_subscriber(&subscriber.email);
    Ok(true)
}

/// Once a subscriber's record is removed, a lookup by that email finds
/// nothing.
pub proof fn lemma_removed_email_absent(subs: Map<Seq<char>, SubscriberV>, e: Seq<char>)
    ensures
        !subs.remove(e).dom().contains(e),
{
}

/// Re-verification does not accumulate records: writing a subscriber for an
/// email twice leaves exactly the one record of the second write, and the
/// set of subscribed emails after either write is the same.
pub proof fn lemma_reverification_no_duplicate(
    subs: Map<Seq<char>, SubscriberV>,
    e: Seq<char>,
    s1: SubscriberV,
    s2: SubscriberV,
)
    ensures
        subs.insert(e, s1).insert(e, s2) == subs.insert(e, s2),
        subs.insert(e, s1).dom() == subs.dom().insert(e),
        subs.insert(e, s1).insert(e, s2).dom() == subs.dom().insert(e),
{
    assert(subs.insert(e, s1).insert(e, s2) =~= subs.insert(e, s2));
    assert(subs.insert(e, s1).dom() =~= subs.dom().insert(e));
    assert(subs.insert(e, s2).dom() =~= subs.dom().insert(e));
}

} // verus!
