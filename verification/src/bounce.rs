//! Delivery-event reconciliation: permanent failures and complaints remove
//! the listed subscribers; transient failures and unknown event types change
//! nothing. Each listed address is handled independently — one invalid
//! address never aborts the rest of the event.

use vstd::prelude::*;
use crate::email::{valid_email, EmailAddr};
use crate::store::Store;
use crate::text::{lower_seq, string_eq_str};
use crate::types::SubscriberV;

verus! {

/// A delivery notification: a type discriminator and, depending on the
/// type, a bounce or complaint sub-payload.
pub struct SesNotification {
    pub event_type: String,
    pub bounce: Option<BounceNotification>,
    pub complaint: Option<ComplaintNotification>,
}

pub struct BounceNotification {
    pub bounce_type: String,
    pub bounced_recipients: Vec<BouncedRecipient>,
}

pub struct BouncedRecipient {
    pub email_address: String,
}

pub struct ComplaintNotification {
    pub complained_recipients: Vec<ComplainedRecipient>,
}

pub struct ComplainedRecipient {
    pub email_address: String,
}

/// A declared event type whose expected sub-payload is missing: a malformed
/// upstream payload, a hard error for the whole event.
#[derive(Debug, Clone, Copy, PartialEq, Eq, Structural)]
pub enum NotificationError {
    MissingBounce,
    MissingComplaint,
}

impl NotificationError {
    /// A human-readable message for the error.
    pub fn message(&self) -> (r: &'static str)
        ensures
            match self {
                NotificationError::MissingBounce => r@ == "bounce notification missing bounce field"@,
                NotificationError::MissingComplaint => r@
                    == "complaint notification missing complaint field"@,
            },
    {
        match self {
            NotificationError::MissingBounce => "bounce notification missing bounce field",
            NotificationError::MissingComplaint => "complaint notification missing complaint field",
        }
    }
}

/// The subscriber map after removing each listed address in turn. An address
/// is removed under its normalized form; one that does not validate is
/// skipped.
pub open spec fn remove_listed(
    subs: Map<Seq<char>, SubscriberV>,
    emails: Seq<Seq<char>>,
) -> Map<Seq<char>, SubscriberV>
    decreases emails.len(),
{
    if emails.len() == 0 {
        subs
    } else {
        let rest = remove_listed(subs, emails.drop_last());
        if valid_email(lower_seq(emails.last())) {
            rest.remove(lower_seq(emails.last()))
        } else {
            rest
        }
    }
}

/// Whether `k` is the normalized form of some valid listed address.
pub open spec fn listed(k: Seq<char>, emails: Seq<Seq<char>>) -> bool {
    exists|i: int|
        0 <= i < emails.len() && valid_email(lower_seq(#[trigger] emails[i])) && lower_seq(
            emails[i],
        ) == k
}

/// Removal touches exactly the listed addresses: every valid listed address
/// is absent afterwards, and every other record is untouched.
pub proof fn lemma_remove_listed(subs: Map<Seq<char>, SubscriberV>, emails: Seq<Seq<char>>)
    ensures
        forall|k: Seq<char>|
            !listed(k, emails) ==> (remove_listed(subs, emails).dom().contains(k)
                == subs.dom().contains(k) && (subs.dom().contains(k) ==> remove_listed(
                subs,
                emails,
            )[k] == subs[k])),
        forall|k: Seq<char>| listed(k, emails) ==> !remove_listed(subs, emails).dom().contains(k),
    decreases emails.len(),
{
    if emails.len() > 0 {
        lemma_remove_listed(subs, emails.drop_last());
        assert forall|k: Seq<char>| !listed(k, emails) implies (remove_listed(
            subs,
            emails,
        ).dom().contains(k) == subs.dom().contains(k) && (subs.dom().contains(k)
            ==> remove_listed(subs, emails)[k] == subs[k])) by {
            assert(!listed(k, emails.drop_last())) by {
                if listed(k, emails.drop_last()) {
                    let i = choose|i: int|
                        0 <= i < emails.drop_last().len() && valid_email(
                            lower_seq(#[trigger] emails.drop_last()[i]),
                        ) && lower_seq(emails.drop_last()[i]) == k;
                    assert(emails[i] == emails.drop_last()[i]);
                }
            }
            if valid_email(lower_seq(emails.last())) {
                assert(lower_seq(emails.last()) != k);
            }
        }
        assert forall|k: Seq<char>| listed(k, emails) implies !remove_listed(
            subs,
            emails,
        ).dom().contains(k) by {
            let i = choose|i: int|
                0 <= i < emails.len() && valid_email(lower_seq(#[trigger] emails[i])) && lower_seq(
                    emails[i],
                ) == k;
            if i < emails.len() - 1 {
                assert(emails.drop_last()[i] == emails[i]);
                assert(listed(k, emails.drop_last()));
            } else {
                assert(lower_seq(emails.last()) == k);
            }
        }
    }
}

/// Remove the subscriber for one listed address; an address that does not
/// validate is skipped without error.
fn remove_recipient(store: &mut Store, email_str: &String)
    requires
        old(store).wf(),
    ensures
        final(store).wf(),
        final(store).subs() == (if valid_email(lower_seq(email_str@)) {
            old(store).subs().remove(lower_seq(email_str@))
        } else {
            old(store).subs()
        }),
        final(store).pends() == old(store).pends(),
        final(store).digs() == old(store).digs(),
        final(store).snaps() == old(store).snaps(),
{
    match EmailAddr::parse(email_str.as_str()) {
        Some(email) => {
            store.remove_subscriber(&email);
        },
        None => {},
    }
}

/// The addresses a bounce lists.
pub open spec fn bounced_emails(b: BounceNotification) -> Seq<Seq<char>> {
    b.bounced_recipients@.map_values(|x: BouncedRecipient| x.email_address@)
}

/// The addresses a complaint lists.
pub open spec fn complained_emails(c: ComplaintNotification) -> Seq<Seq<char>> {
    c.complained_recipients@.map_values(|x: ComplainedRecipient| x.email_address@)
}

/// Process one delivery notification.
///
/// A permanent bounce or a complaint removes every listed subscriber by
/// (normalized) email; a transient bounce and an unknown event type change
/// nothing; a `Bounce` or `Complaint` event without its sub-payload is a
/// hard error that changes nothing.
pub fn handle_notification(notification: &SesNotification, store: &mut Store) -> (r: Result<
    (),
    NotificationError,
>)
    requires
        old(store).wf(),
    ensures
        final(store).wf(),
        final(store).pends() == old(store).pends(),
        final(store).digs() == old(store).digs(),
        final(store).snaps() == old(store).snaps(),
        match r {
            Ok(_) => {
                if notification.event_type@ == "Bounce"@ {
                    notification.bounce is Some && {
                        let b = notification.bounce->Some_0;
                        if b.bounce_type@ == "Permanent"@ {
                            final(store).subs() == remove_listed(
                                old(store).subs(),
                                bounced_emails(b),
                            )
                        } else {
                            final(store).subs() == old(store).subs()
                        }
                    }
                } else if notification.event_type@ == "Complaint"@ {
                    notification.complaint is Some && final(store).subs() == remove_listed(
                        old(store).subs(),
                        complained_emails(notification.complaint->Some_0),
                    )
                } else {
                    final(store).subs() == old(store).subs()
                }
            },
            Err(NotificationError::MissingBounce) => notification.event_type@ == "Bounce"@
                && notification.bounce is None && final(store).subs() == old(store).subs(),
            Err(NotificationError::MissingComplaint) => notification.event_type@ == "Complaint"@
                && notification.complaint is None && final(store).subs() == old(store).subs(),
        },
{
    if string_eq_str(&notification.event_type, "Bounce") {
        let bounce = match &notification.bounce {
            Some(b) => b,
            None => {
                return Err(NotificationError::MissingBounce);
            },
        };
        if string_eq_str(&bounce.bounce_type, "Permanent") {
            let ghost subs0 = store.subs();
            let ghost emails = bounced_emails(*bounce);
            let n = bounce.bounced_recipients.len();
            let mut i: usize = 0;
            while i < n
                invariant
                    old(store).wf(),
                    store.wf(),
                    n == bounce.bounced_recipients@.len(),
                    0 <= i <= n,
                    emails == bounced_emails(*bounce),
                    store.subs() == remove_listed(subs0, emails.subrange(0, i as int)),
                    store.pends() == old(store).pends(),
                    store.digs() == old(store).digs(),
                    store.snaps() == old(store).snaps(),
                    subs0 == old(store).subs(),
                decreases n - i,
            {
                remove_recipient(store, &bounce.bounced_recipients[i].email_address);
                proof {
                    assert(emails.subrange(0, i + 1).drop_last() =~= emails.subrange(0, i as int));
                    assert(emails.subrange(0, i + 1).last() == emails[i as int]);
                    assert(emails[i as int] == bounce.bounced_recipients@[i as int].email_address@);
                }
                i = i + 1;
            }
            proof {
                assert(emails.subrange(0, n as int) =~= emails);
            }
        }
        Ok(())
    } else if string_eq_str(&notification.event_type, "Complaint") {
        let complaint = match &notification.complaint {
            Some(c) => c,
            None => {
                return Err(NotificationError::MissingComplaint);
            },
        };
        let ghost subs0 = store.subs();
        let ghost emails = complained_emails(*complaint);
        let n = complaint.complained_recipients.len();
        let mut i: usize = 0;
        while i < n
            invariant
                old(store).wf(),
                store.wf(),
                n == complaint.complained_recipients@.len(),
                0 <= i <= n,
                emails == complained_emails(*complaint),
                store.subs() == remove_listed(subs0, emails.subrange(0, i as int)),
                store.pends() == old(store).pends(),
                store.digs() == old(store).digs(),
                store.snaps() == old(store).snaps(),
                subs0 == old(store).subs(),
            decreases n - i,
        {
            remove_recipient(store, &complaint.complained_recipients[i].email_address);
            proof {
                assert(emails.subrange(0, i + 1).drop_last() =~= emails.subrange(0, i as int));
                assert(emails.subrange(0, i + 1).last() == emails[i as int]);
                assert(emails[i as int] == complaint.complained_recipients@[i as int].email_address@);
            }
            i = i + 1;
        }
        proof {
            assert(emails.subrange(0, n as int) =~= emails);
        }
        Ok(())
    } else {
        Ok(())
    }
}

} // verus!
