//! The document store: four record collections, each addressed by a
//! partition discriminator and a per-record sort key, plus a secondary
//! token index over subscribers.
//!
//! Each collection is viewed as a map from its key to the record's abstract
//! value; every operation's contract is a map equation. "Not found" is
//! absence, never an error; a duplicate unsubscribe token is an integrity
//! error, surfaced loudly by the token lookup rather than resolved silently.

use vstd::prelude::*;
use crate::date::{datestamp, spec_datestamp, Date};
use crate::digest::clone_posts;
use crate::email::EmailAddr;
use crate::types::{PendingSubscription, PendingV, Post, Subscriber, SubscriberV, Token};

verus! {

/// An integrity violation inside the store.
#[derive(Debug, Clone, Copy, PartialEq, Eq, Structural)]
pub enum StoreError {
    /// More than one subscriber carries the same unsubscribe token.
    DuplicateToken,
}

impl StoreError {
    /// A human-readable message for the error.
    pub fn message(&self) -> (r: &'static str)
        ensures
            r@ == "data integrity error: unsubscribe tokens must be unique"@,
    {
        "data integrity error: unsubscribe tokens must be unique"
    }
}

/// Some subscriber in `s` has the email `e`.
pub open spec fn has_sub_email(s: Seq<Subscriber>, e: Seq<char>) -> bool {
    exists|i: int| 0 <= i < s.len() && #[trigger] s[i]@.email == e
}

/// The index of the subscriber with email `e`.
pub open spec fn sub_email_idx(s: Seq<Subscriber>, e: Seq<char>) -> int {
    choose|i: int| 0 <= i < s.len() && #[trigger] s[i]@.email == e
}

/// No two subscribers share an email.
pub open spec fn unique_sub_emails(s: Seq<Subscriber>) -> bool {
    forall|i: int, j: int|
        0 <= i < j < s.len() ==> #[trigger] s[i]@.email != #[trigger] s[j]@.email
}

/// Some pending record in `s` has the email `e`.
pub open spec fn has_pend_email(s: Seq<PendingSubscription>, e: Seq<char>) -> bool {
    exists|i: int| 0 <= i < s.len() && #[trigger] s[i]@.email == e
}

/// The index of the pending record with email `e`.
pub open spec fn pend_email_idx(s: Seq<PendingSubscription>, e: Seq<char>) -> int {
    choose|i: int| 0 <= i < s.len() && #[trigger] s[i]@.email == e
}

/// No two pending records share an email.
pub open spec fn unique_pend_emails(s: Seq<PendingSubscription>) -> bool {
    forall|i: int, j: int|
        0 <= i < j < s.len() ==> #[trigger] s[i]@.email != #[trigger] s[j]@.email
}

struct DigestRecord {
    pk: String,
    sk: String,
    posts: Vec<Post>,
}

struct SnapshotRecord {
    sk: String,
    posts: Vec<Post>,
}

spec fn has_dig_key(s: Seq<DigestRecord>, pk: Seq<char>, sk: Seq<char>) -> bool {
    exists|i: int| 0 <= i < s.len() && #[trigger] s[i].pk@ == pk && s[i].sk@ == sk
}

spec fn dig_key_idx(s: Seq<DigestRecord>, pk: Seq<char>, sk: Seq<char>) -> int {
    choose|i: int| 0 <= i < s.len() && #[trigger] s[i].pk@ == pk && s[i].sk@ == sk
}

spec fn unique_dig_keys(s: Seq<DigestRecord>) -> bool {
    forall|i: int, j: int|
        0 <= i < j < s.len() ==> !(#[trigger] s[i].pk@ == #[trigger] s[j].pk@ && s[i].sk@
            == s[j].sk@)
}

spec fn has_snap_key(s: Seq<SnapshotRecord>, k: Seq<char>) -> bool {
    exists|i: int| 0 <= i < s.len() && #[trigger] s[i].sk@ == k
}

spec fn snap_key_idx(s: Seq<SnapshotRecord>, k: Seq<char>) -> int {
    choose|i: int| 0 <= i < s.len() && #[trigger] s[i].sk@ == k
}

spec fn unique_snap_keys(s: Seq<SnapshotRecord>) -> bool {
    forall|i: int, j: int| 0 <= i < j < s.len() ==> #[trigger] s[i].sk@ != #[trigger] s[j].sk@
}

/// The partition key of a digest record: the strategy identity is embedded
/// in the partition discriminator.
pub open spec fn spec_digest_partition_key(type_: Seq<char>) -> Seq<char> {
    "DIGEST#"@ + type_
}

/// Build the digest partition key for a strategy string.
pub fn digest_partition_key(type_: &str) -> (r: String)
    ensures
        r@ == spec_digest_partition_key(type_@),
{
    let mut s = "DIGEST#".to_owned();
    s.append(type_);
    s
}

/// The in-memory document store.
pub struct Store {
    subscribers: Vec<Subscriber>,
    pending: Vec<PendingSubscription>,
    digests: Vec<DigestRecord>,
    snapshots: Vec<SnapshotRecord>,
}

impl Store {
    /// Keys are unique in every collection and every record is well formed.
    pub closed spec fn wf(&self) -> bool {
        &&& unique_sub_emails(self.subscribers@)
        &&& forall|i: int| 0 <= i < self.subscribers@.len() ==> (#[trigger] self.subscribers@[i]).wf()
        &&& unique_pend_emails(self.pending@)
        &&& forall|i: int| 0 <= i < self.pending@.len() ==> (#[trigger] self.pending@[i]).wf()
        &&& unique_dig_keys(self.digests@)
        &&& unique_snap_keys(self.snapshots@)
    }

    /// The subscribers, as a map from normalized email to record value.
    pub closed spec fn subs(&self) -> Map<Seq<char>, SubscriberV> {
        Map::new(
            |e: Seq<char>| has_sub_email(self.subscribers@, e),
            |e: Seq<char>| self.subscribers@[sub_email_idx(self.subscribers@, e)]@,
        )
    }

    /// The pending subscriptions, as a map from normalized email to record
    /// value.
    pub closed spec fn pends(&self) -> Map<Seq<char>, PendingV> {
        Map::new(
            |e: Seq<char>| has_pend_email(self.pending@, e),
            |e: Seq<char>| self.pending@[pend_email_idx(self.pending@, e)]@,
        )
    }

    /// The digests, as a map from (partition key, date stamp) to posts.
    pub closed spec fn digs(&self) -> Map<(Seq<char>, Seq<char>), Seq<Post>> {
        Map::new(
            |k: (Seq<char>, Seq<char>)| has_dig_key(self.digests@, k.0, k.1),
            |k: (Seq<char>, Seq<char>)| self.digests@[dig_key_idx(self.digests@, k.0, k.1)].posts@,
        )
    }

    /// The snapshots, as a map from date stamp to posts.
    pub closed spec fn snaps(&self) -> Map<Seq<char>, Seq<Post>> {
        Map::new(
            |k: Seq<char>| has_snap_key(self.snapshots@, k),
            |k: Seq<char>| self.snapshots@[snap_key_idx(self.snapshots@, k)].posts@,
        )
    }

    /// An empty store.
    pub fn new() -> (r: Store)
        ensures
            r.wf(),
            r.subs() =~= Map::<Seq<char>, SubscriberV>::empty(),
            r.pends() =~= Map::<Seq<char>, PendingV>::empty(),
            r.digs() =~= Map::<(Seq<char>, Seq<char>), Seq<Post>>::empty(),
            r.snaps() =~= Map::<Seq<char>, Seq<Post>>::empty(),
    {
        Store {
            subscribers: Vec::new(),
            pending: Vec::new(),
            digests: Vec::new(),
            snapshots: Vec::new(),
        }
    }

    /// The index of the subscriber with the given email, if one exists.
    fn find_sub_by_email(&self, e: &str) -> (r: Option<usize>)
        ensures
            match r {
                Some(i) => i < self.subscribers@.len() && self.subscribers@[i as int]@.email == e@,
                None => !has_sub_email(self.subscribers@, e@),
            },
    {
        let n = self.subscribers.len();
        let mut i: usize = 0;
        while i < n
            invariant
                n == self.subscribers@.len(),
                0 <= i <= n,
                forall|k: int| 0 <= k < i ==> #[trigger] self.subscribers@[k]@.email != e@,
            decreases n - i,
        {
            if self.subscribers[i].email.eq_str(e) {
                return Some(i);
            }
            i = i + 1;
        }
        None
    }

    /// Look up a subscriber by normalized email; absence is not an error.
    pub fn get_subscriber_by_email(&self, email: &EmailAddr) -> (r: Option<Subscriber>)
        requires
            self.wf(),
        ensures
            match r {
                None => !self.subs().dom().contains(email@),
                Some(s) => self.subs().dom().contains(email@) && s@ == self.subs()[email@]
                    && s@.email == email@ && s.wf(),
            },
    {
        match self.find_sub_by_email(email.as_str()) {
            Some(i) => {
                let s = self.subscribers[i].clone();
                proof {
                    lemma_sub_at(self.subscribers@, email@, i as int);
                }
                Some(s)
            },
            None => None,
        }
    }

    /// Whether a subscriber record exists for this email.
    pub fn subscriber_exists(&self, email: &EmailAddr) -> (r: bool)
        requires
            self.wf(),
        ensures
            r == self.subs().dom().contains(email@),
    {
        self.find_sub_by_email(email.as_str()).is_some()
    }

    /// Create or replace the subscriber record for an email.
    pub fn upsert_subscriber(&mut self, s: Subscriber)
        requires
            old(self).wf(),
            s.wf(),
        ensures
            final(self).wf(),
            final(self).subs() == old(self).subs().insert(s@.email, s@),
            final(self).pends() == old(self).pends(),
            final(self).digs() == old(self).digs(),
            final(self).snaps() == old(self).snaps(),
    {
        let ghost old_self = *self;
        let ghost old_seq = self.subscribers@;
        let ghost e = s@.email;
        let ghost sv = s@;
        let ghost s_wf = s.wf();
        let ghost s_snap = s;
        let found = self.find_sub_by_email(s.email.as_str());
        match found {
            Some(i) => {
                self.subscribers.remove(i);
                self.subscribers.push(s);
                proof {
                    lemma_remove_push_sub(old_seq, i as int, s_snap);
                }
            },
            None => {
                self.subscribers.push(s);
                proof {
                    assert forall|k: int, l: int|
                        0 <= k < l < self.subscribers@.len() implies #[trigger] self.subscribers@[k]@.email
                        != #[trigger] self.subscribers@[l]@.email by {
                        if l == self.subscribers@.len() - 1 {
                            assert(old_seq[k]@.email != e);
                        }
                    }
                }
            },
        }
        proof {
            let new_seq = self.subscribers@;
            // every non-final new record is an old record with its email
            assert forall|j: int| 0 <= j < new_seq.len() - 1 implies has_sub_email(
                old_seq,
                (#[trigger] new_seq[j])@.email,
            ) && new_seq[j] == old_seq[sub_email_idx(old_seq, new_seq[j]@.email)] by {
                match found {
                    Some(i) => {
                        let sk = if j < i {
                            j as int
                        } else {
                            j + 1
                        };
                        assert(new_seq[j] == old_seq[sk]);
                        lemma_sub_at(old_seq, old_seq[sk]@.email, sk);
                    },
                    None => {
                        assert(new_seq[j] == old_seq[j]);
                        lemma_sub_at(old_seq, old_seq[j]@.email, j);
                    },
                }
            }
            // every old record with another email survives
            assert forall|j: int|
                0 <= j < old_seq.len() && (#[trigger] old_seq[j])@.email != e implies has_sub_email(
                new_seq,
                old_seq[j]@.email,
            ) by {
                match found {
                    Some(i) => {
                        assert(j != i);
                        if j < i {
                            assert(new_seq[j] == old_seq[j]);
                        } else {
                            assert(new_seq[j - 1] == old_seq[j]);
                        }
                    },
                    None => {
                        assert(new_seq[j] == old_seq[j]);
                    },
                }
            }
            lemma_sub_map_after_upsert(old_seq, new_seq, s_snap);
            // every stored record is well formed
            assert forall|j: int| 0 <= j < new_seq.len() implies (#[trigger] new_seq[j]).wf() by {
                if j < new_seq.len() - 1 {
                    assert(new_seq[j] == old_seq[sub_email_idx(old_seq, new_seq[j]@.email)]);
                } else {
                    assert(new_seq[j]@ == sv);
                    assert(s_wf);
                }
            }
            assert(self.subs() =~= old_self.subs().insert(e, sv));
            assert(self.pends() =~= old_self.pends());
            assert(self.digs() =~= old_self.digs());
            assert(self.snaps() =~= old_self.snaps());
        }
    }

    /// Delete the subscriber record for an email, if one exists.
    pub fn remove_subscriber(&mut self, email: &EmailAddr)
        requires
            old(self).wf(),
        ensures
            final(self).wf(),
            final(self).subs() == old(self).subs().remove(email@),
            final(self).pends() == old(self).pends(),
            final(self).digs() == old(self).digs(),
            final(self).snaps() == old(self).snaps(),
    {
        let ghost old_self = *self;
        let ghost old_seq = self.subscribers@;
        let found = self.find_sub_by_email(email.as_str());
        match found {
            Some(i) => {
                self.subscribers.remove(i);
                proof {
                    lemma_remove_sub(old_seq, i as int);
                    assert(!has_sub_email(self.subscribers@, email@)) by {
                        if has_sub_email(self.subscribers@, email@) {
                            let j = choose|j: int|
                                0 <= j < self.subscribers@.len()
                                    && #[trigger] self.subscribers@[j]@.email == email@;
                            if j < i {
                                assert(old_seq[j]@.email == old_seq[i as int]@.email);
                            } else {
                                assert(old_seq[j + 1]@.email == old_seq[i as int]@.email);
                            }
                        }
                    }
                    assert forall|k: Seq<char>| k != email@ implies (has_sub_email(
                        self.subscribers@,
                        k,
                    ) == has_sub_email(old_seq, k)) by {
                        lemma_remove_keeps_sub(old_seq, i as int, k);
                    }
                    assert forall|k: Seq<char>|
                        k != email@ && has_sub_email(self.subscribers@, k) implies (
                    self.subscribers@[sub_email_idx(self.subscribers@, k)]@ == old_seq[
                        sub_email_idx(old_seq, k)]@) by {
                        let j = sub_email_idx(self.subscribers@, k);
                        assert(0 <= j < self.subscribers@.len()
                            && self.subscribers@[j]@.email == k);
                        if j < i {
                            lemma_sub_at(old_seq, k, j);
                        } else {
                            lemma_sub_at(old_seq, k, j + 1);
                        }
                    }
                    assert(final(self).subs() =~= old_self.subs().remove(email@));
                }
            },
            None => {
                proof {
                    assert(final(self).subs() =~= old_self.subs().remove(email@));
                }
            },
        }
        proof {
            assert(final(self).pends() =~= old_self.pends());
            assert(final(self).digs() =~= old_self.digs());
            assert(final(self).snaps() =~= old_self.snaps());
        }
    }
}

impl Store {
    /// The index of the pending record with the given email, if one exists.
    fn find_pend_by_email(&self, e: &str) -> (r: Option<usize>)
        ensures
            match r {
                Some(i) => i < self.pending@.len() && self.pending@[i as int]@.email == e@,
                None => !has_pend_email(self.pending@, e@),
            },
    {
        let n = self.pending.len();
        let mut i: usize = 0;
        while i < n
            invariant
                n == self.pending@.len(),
                0 <= i <= n,
                forall|k: int| 0 <= k < i ==> #[trigger] self.pending@[k]@.email != e@,
            decreases n - i,
        {
            if self.pending[i].email.eq_str(e) {
                return Some(i);
            }
            i = i + 1;
        }
        None
    }

    /// Look up a pending subscription by normalized email; absence is not an
    /// error.
    pub fn get_pending_subscription(&self, email: &EmailAddr) -> (r: Option<PendingSubscription>)
        requires
            self.wf(),
        ensures
            match r {
                None => !self.pends().dom().contains(email@),
                Some(p) => self.pends().dom().contains(email@) && p@ == self.pends()[email@]
                    && p@.email == email@ && p.wf(),
            },
    {
        match self.find_pend_by_email(email.as_str()) {
            Some(i) => {
                let p = self.pending[i].clone();
                proof {
                    lemma_pend_at(self.pending@, email@, i as int);
                }
                Some(p)
            },
            None => None,
        }
    }

    /// Create or replace the pending subscription for an email: a repeated
    /// subscribe request overwrites the previous pending record.
    pub fn upsert_pending_subscription(&mut self, p: PendingSubscription)
        requires
            old(self).wf(),
            p.wf(),
        ensures
            final(self).wf(),
            final(self).pends() == old(self).pends().insert(p@.email, p@),
            final(self).subs() == old(self).subs(),
            final(self).digs() == old(self).digs(),
            final(self).snaps() == old(self).snaps(),
    {
        let ghost old_self = *self;
        let ghost old_seq = self.pending@;
        let ghost e = p@.email;
        let ghost pv = p@;
        let ghost p_wf = p.wf();
        let ghost p_snap = p;
        let found = self.find_pend_by_email(p.email.as_str());
        match found {
            Some(i) => {
                self.pending.remove(i);
                self.pending.push(p);
                proof {
                    lemma_remove_push_pend(old_seq, i as int, p_snap);
                }
            },
            None => {
                self.pending.push(p);
                proof {
                    assert forall|k: int, l: int|
                        0 <= k < l < self.pending@.len() implies #[trigger] self.pending@[k]@.email
                        != #[trigger] self.pending@[l]@.email by {
                        if l == self.pending@.len() - 1 {
                            assert(old_seq[k]@.email != e);
                        }
                    }
                }
            },
        }
        proof {
            let new_seq = self.pending@;
            assert forall|j: int| 0 <= j < new_seq.len() - 1 implies has_pend_email(
                old_seq,
                (#[trigger] new_seq[j])@.email,
            ) && new_seq[j] == old_seq[pend_email_idx(old_seq, new_seq[j]@.email)] by {
                match found {
                    Some(i) => {
                        let sk = if j < i {
                            j as int
                        } else {
                            j + 1
                        };
                        assert(new_seq[j] == old_seq[sk]);
                        lemma_pend_at(old_seq, old_seq[sk]@.email, sk);
                    },
                    None => {
                        assert(new_seq[j] == old_seq[j]);
                        lemma_pend_at(old_seq, old_seq[j]@.email, j);
                    },
                }
            }
            assert forall|j: int|
                0 <= j < old_seq.len() && (#[trigger] old_seq[j])@.email != e implies has_pend_email(
                new_seq,
                old_seq[j]@.email,
            ) by {
                match found {
                    Some(i) => {
                        assert(j != i);
                        if j < i {
                            assert(new_seq[j] == old_seq[j]);
                        } else {
                            assert(new_seq[j - 1] == old_seq[j]);
                        }
                    },
                    None => {
                        assert(new_seq[j] == old_seq[j]);
                    },
                }
            }
            lemma_pend_map_after_upsert(old_seq, new_seq, p_snap);
            assert forall|j: int| 0 <= j < new_seq.len() implies (#[trigger] new_seq[j]).wf() by {
                if j < new_seq.len() - 1 {
                    assert(new_seq[j] == old_seq[pend_email_idx(old_seq, new_seq[j]@.email)]);
                } else {
                    assert(new_seq[j]@ == pv);
                    assert(p_wf);
                }
            }
            assert(self.pends() =~= old_self.pends().insert(e, pv));
            assert(self.subs() =~= old_self.subs());
            assert(self.digs() =~= old_self.digs());
            assert(self.snaps() =~= old_self.snaps());
        }
    }

    /// Delete the pending subscription for an email, if one exists.
    pub fn delete_pending_subscription(&mut self, email: &EmailAddr)
        requires
            old(self).wf(),
        ensures
            final(self).wf(),
            final(self).pends() == old(self).pends().remove(email@),
            final(self).subs() == old(self).subs(),
            final(self).digs() == old(self).digs(),
            final(self).snaps() == old(self).snaps(),
    {
        let ghost old_self = *self;
        let ghost old_seq = self.pending@;
        let found = self.find_pend_by_email(email.as_str());
        match found {
            Some(i) => {
                self.pending.remove(i);
                proof {
                    lemma_remove_pend(old_seq, i as int);
                    assert(!has_pend_email(self.pending@, email@)) by {
                        if has_pend_email(self.pending@, email@) {
                            let j = choose|j: int|
                                0 <= j < self.pending@.len()
                                    && #[trigger] self.pending@[j]@.email == email@;
                            if j < i {
                                assert(old_seq[j]@.email == old_seq[i as int]@.email);
                            } else {
                                assert(old_seq[j + 1]@.email == old_seq[i as int]@.email);
                            }
                        }
                    }
                    assert forall|k: Seq<char>| k != email@ implies (has_pend_email(
                        self.pending@,
                        k,
                    ) == has_pend_email(old_seq, k)) by {
                        lemma_remove_keeps_pend(old_seq, i as int, k);
                    }
                    assert forall|k: Seq<char>|
                        k != email@ && has_pend_email(self.pending@, k) implies (
                    self.pending@[pend_email_idx(self.pending@, k)]@ == old_seq[pend_email_idx(
                        old_seq,
                        k,
                    )]@) by {
                        let j = pend_email_idx(self.pending@, k);
                        assert(0 <= j < self.pending@.len() && self.pending@[j]@.email == k);
                        if j < i {
                            lemma_pend_at(old_seq, k, j);
                        } else {
                            lemma_pend_at(old_seq, k, j + 1);
                        }
                    }
                    assert(self.pends() =~= old_self.pends().remove(email@));
                }
            },
            None => {
                proof {
                    assert(self.pends() =~= old_self.pends().remove(email@));
                }
            },
        }
        proof {
            assert(self.subs() =~= old_self.subs());
            assert(self.digs() =~= old_self.digs());
            assert(self.snaps() =~= old_self.snaps());
        }
    }
}

/// A matching index pins down the chosen index: emails are unique.
proof fn lemma_sub_at(s: Seq<Subscriber>, e: Seq<char>, i: int)
    requires
        unique_sub_emails(s),
        0 <= i < s.len(),
        s[i]@.email == e,
    ensures
        has_sub_email(s, e),
        sub_email_idx(s, e) == i,
{
    assert(has_sub_email(s, e));
    let j = sub_email_idx(s, e);
    assert(0 <= j < s.len() && s[j]@.email == e);
    if j < i {
        assert(s[j]@.email != s[i]@.email);
    } else if i < j {
        assert(s[i]@.email != s[j]@.email);
    }
}

/// Removing index `i` keeps or drops each email as expected.
proof fn lemma_remove_sub(s: Seq<Subscriber>, i: int)
    requires
        unique_sub_emails(s),
        0 <= i < s.len(),
    ensures
        unique_sub_emails(s.remove(i)),
        forall|j: int|
            0 <= j < s.remove(i).len() ==> #[trigger] s.remove(i)[j] == (if j < i {
                s[j]
            } else {
                s[j + 1]
            }),
        forall|j: int|
            0 <= j < s.remove(i).len() ==> (#[trigger] s.remove(i)[j]).wf() == (if j < i {
                s[j].wf()
            } else {
                s[j + 1].wf()
            }),
{
    let t = s.remove(i);
    assert(forall|j: int|
        0 <= j < t.len() ==> #[trigger] t[j] == (if j < i {
            s[j]
        } else {
            s[j + 1]
        }));
    assert forall|k: int, l: int| 0 <= k < l < t.len() implies #[trigger] t[k]@.email
        != #[trigger] t[l]@.email by {
        let sk = if k < i {
            k
        } else {
            k + 1
        };
        let sl = if l < i {
            l
        } else {
            l + 1
        };
        assert(s[sk]@.email != s[sl]@.email);
    }
}

/// An email other than the removed one survives removal.
proof fn lemma_remove_keeps_sub(s: Seq<Subscriber>, i: int, k: Seq<char>)
    requires
        unique_sub_emails(s),
        0 <= i < s.len(),
        k != s[i]@.email,
    ensures
        has_sub_email(s.remove(i), k) == has_sub_email(s, k),
{
    let t = s.remove(i);
    assert(forall|j: int|
        0 <= j < t.len() ==> #[trigger] t[j] == (if j < i {
            s[j]
        } else {
            s[j + 1]
        }));
    if has_sub_email(s, k) {
        let j = choose|j: int| 0 <= j < s.len() && #[trigger] s[j]@.email == k;
        if j < i {
            assert(t[j]@.email == k);
        } else {
            assert(j != i);
            assert(t[j - 1]@.email == k);
        }
        assert(has_sub_email(t, k));
    }
    if has_sub_email(t, k) {
        let j = choose|j: int| 0 <= j < t.len() && #[trigger] t[j]@.email == k;
        if j < i {
            assert(s[j]@.email == k);
        } else {
            assert(s[j + 1]@.email == k);
        }
        assert(has_sub_email(s, k));
    }
}

/// Removing the record that shares `s`'s email and appending `s` keeps
/// uniqueness.
proof fn lemma_remove_push_sub(old_seq: Seq<Subscriber>, i: int, s: Subscriber)
    requires
        unique_sub_emails(old_seq),
        0 <= i < old_seq.len(),
        old_seq[i]@.email == s@.email,
    ensures
        unique_sub_emails(old_seq.remove(i).push(s)),
        forall|j: int|
            0 <= j < old_seq.remove(i).push(s).len() ==> #[trigger] old_seq.remove(i).push(s)[j]
                == (if j < i {
                old_seq[j]
            } else if j < old_seq.len() - 1 {
                old_seq[j + 1]
            } else {
                s
            }),
{
    lemma_remove_sub(old_seq, i);
    let t = old_seq.remove(i).push(s);
    assert(forall|j: int|
        0 <= j < t.len() - 1 ==> #[trigger] t[j] == old_seq.remove(i)[j]);
    assert(t[t.len() - 1] == s);
    assert forall|k: int, l: int| 0 <= k < l < t.len() implies #[trigger] t[k]@.email
        != #[trigger] t[l]@.email by {
        if l == t.len() - 1 {
            let sk = if k < i {
                k
            } else {
                k + 1
            };
            assert(t[k] == old_seq[sk]);
            if sk != i {
                assert(old_seq[sk]@.email != old_seq[i]@.email);
            }
        }
    }
}

/// After removing any record with `s`'s email and appending `s`, the map
/// view is the old view with `s` inserted.
proof fn lemma_sub_map_after_upsert(old_seq: Seq<Subscriber>, new_seq: Seq<Subscriber>, s: Subscriber)
    requires
        unique_sub_emails(old_seq),
        unique_sub_emails(new_seq),
        new_seq.len() > 0,
        new_seq[new_seq.len() - 1] == s,
        forall|j: int|
            0 <= j < new_seq.len() - 1 ==> has_sub_email(
                old_seq,
                (#[trigger] new_seq[j])@.email,
            ) && new_seq[j] == old_seq[sub_email_idx(old_seq, new_seq[j]@.email)],
        forall|j: int|
            0 <= j < old_seq.len() && (#[trigger] old_seq[j])@.email != s@.email ==> has_sub_email(
                new_seq,
                old_seq[j]@.email,
            ),
    ensures
        forall|k: Seq<char>|
            has_sub_email(new_seq, k) <==> (has_sub_email(old_seq, k) || k == s@.email),
        forall|k: Seq<char>|
            has_sub_email(new_seq, k) && k != s@.email ==> #[trigger] new_seq[sub_email_idx(
                new_seq,
                k,
            )]@ == old_seq[sub_email_idx(old_seq, k)]@,
        has_sub_email(new_seq, s@.email) && new_seq[sub_email_idx(new_seq, s@.email)]@ == s@,
{
    lemma_sub_at(new_seq, s@.email, new_seq.len() - 1);
    assert forall|k: Seq<char>|
        has_sub_email(new_seq, k) implies (has_sub_email(old_seq, k) || k == s@.email) by {
        let j = sub_email_idx(new_seq, k);
        lemma_sub_at(new_seq, k, choose|i: int|
            0 <= i < new_seq.len() && #[trigger] new_seq[i]@.email == k);
        if j < new_seq.len() - 1 {
            assert(has_sub_email(old_seq, new_seq[j]@.email));
        }
    }
    assert forall|k: Seq<char>|
        has_sub_email(new_seq, k) && k != s@.email implies #[trigger] new_seq[sub_email_idx(
            new_seq,
            k,
        )]@ == old_seq[sub_email_idx(old_seq, k)]@ by {
        let j = sub_email_idx(new_seq, k);
        assert(0 <= j < new_seq.len() && new_seq[j]@.email == k);
        assert(j != new_seq.len() - 1);
        assert(new_seq[j] == old_seq[sub_email_idx(old_seq, new_seq[j]@.email)]);
    }
}

impl Store {
    /// The index of the digest record with the given key, if one exists.
    fn find_dig(&self, pk: &str, sk: &str) -> (r: Option<usize>)
        ensures
            match r {
                Some(i) => i < self.digests@.len() && self.digests@[i as int].pk@ == pk@
                    && self.digests@[i as int].sk@ == sk@,
                None => !has_dig_key(self.digests@, pk@, sk@),
            },
    {
        let n = self.digests.len();
        let mut i: usize = 0;
        while i < n
            invariant
                n == self.digests@.len(),
                0 <= i <= n,
                forall|k: int|
                    0 <= k < i ==> !(#[trigger] self.digests@[k].pk@ == pk@
                        && self.digests@[k].sk@ == sk@),
            decreases n - i,
        {
            if crate::text::string_eq_str(&self.digests[i].pk, pk) && crate::text::string_eq_str(
                &self.digests[i].sk,
                sk,
            ) {
                return Some(i);
            }
            i = i + 1;
        }
        None
    }

    /// Fetch the digest stored for a strategy string and date; absence (no
    /// prior digest) is not an error.
    pub fn fetch_digest(&self, type_: &str, date: &Date) -> (r: Option<Vec<Post>>)
        requires
            self.wf(),
            date.wf(),
        ensures
            ({
                let key = (spec_digest_partition_key(type_@), spec_datestamp(*date));
                match r {
                    None => !self.digs().dom().contains(key),
                    Some(posts) => self.digs().dom().contains(key) && posts@ == self.digs()[key],
                }
            }),
    {
        let pk = digest_partition_key(type_);
        let sk = datestamp(date);
        match self.find_dig(pk.as_str(), sk.as_str()) {
            Some(i) => {
                let posts = clone_posts(self.digests[i].posts.as_slice());
                proof {
                    lemma_dig_at(self.digests@, pk@, sk@, i as int);
                }
                Some(posts)
            },
            None => None,
        }
    }

    /// Store the digest for a strategy string and date, overwriting any
    /// earlier digest under the same key.
    pub fn save_digest(&mut self, type_: &str, date: &Date, posts: &[Post])
        requires
            old(self).wf(),
            date.wf(),
        ensures
            final(self).wf(),
            final(self).digs() == old(self).digs().insert(
                (spec_digest_partition_key(type_@), spec_datestamp(*date)),
                posts@,
            ),
            final(self).subs() == old(self).subs(),
            final(self).pends() == old(self).pends(),
            final(self).snaps() == old(self).snaps(),
    {
        let ghost old_self = *self;
        let ghost old_seq = self.digests@;
        let pk = digest_partition_key(type_);
        let sk = datestamp(date);
        let ghost pkv = pk@;
        let ghost skv = sk@;
        let record = DigestRecord { pk, sk, posts: clone_posts(posts) };
        let ghost rec_snap = record;
        let found = self.find_dig(record.pk.as_str(), record.sk.as_str());
        match found {
            Some(i) => {
                self.digests.remove(i);
                self.digests.push(record);
                proof {
                    lemma_remove_push_dig(old_seq, i as int, rec_snap);
                }
            },
            None => {
                self.digests.push(record);
                proof {
                    assert forall|k: int, l: int|
                        0 <= k < l < self.digests@.len() implies !(#[trigger] self.digests@[k].pk@
                        == #[trigger] self.digests@[l].pk@ && self.digests@[k].sk@
                        == self.digests@[l].sk@) by {
                        if l == self.digests@.len() - 1 {
                            assert(!(old_seq[k].pk@ == pkv && old_seq[k].sk@ == skv));
                        }
                    }
                }
            },
        }
        proof {
            let new_seq = self.digests@;
            assert forall|j: int| 0 <= j < new_seq.len() - 1 implies has_dig_key(
                old_seq,
                (#[trigger] new_seq[j]).pk@,
                new_seq[j].sk@,
            ) && new_seq[j] == old_seq[dig_key_idx(old_seq, new_seq[j].pk@, new_seq[j].sk@)] by {
                match found {
                    Some(i) => {
                        let sq = if j < i {
                            j as int
                        } else {
                            j + 1
                        };
                        assert(new_seq[j] == old_seq[sq]);
                        lemma_dig_at(old_seq, old_seq[sq].pk@, old_seq[sq].sk@, sq);
                    },
                    None => {
                        assert(new_seq[j] == old_seq[j]);
                        lemma_dig_at(old_seq, old_seq[j].pk@, old_seq[j].sk@, j);
                    },
                }
            }
            assert forall|j: int|
                0 <= j < old_seq.len() && !((#[trigger] old_seq[j]).pk@ == pkv && old_seq[j].sk@
                    == skv) implies has_dig_key(new_seq, old_seq[j].pk@, old_seq[j].sk@) by {
                match found {
                    Some(i) => {
                        assert(j != i);
                        if j < i {
                            assert(new_seq[j] == old_seq[j]);
                        } else {
                            assert(new_seq[j - 1] == old_seq[j]);
                        }
                    },
                    None => {
                        assert(new_seq[j] == old_seq[j]);
                    },
                }
            }
            lemma_dig_at(new_seq, pkv, skv, new_seq.len() - 1);
            assert forall|k: (Seq<char>, Seq<char>)|
                has_dig_key(new_seq, k.0, k.1) implies (has_dig_key(old_seq, k.0, k.1) || k == (
            pkv,
            skv,
            )) by {
                let j = dig_key_idx(new_seq, k.0, k.1);
                lemma_dig_at(new_seq, k.0, k.1, choose|i: int|
                    0 <= i < new_seq.len() && #[trigger] new_seq[i].pk@ == k.0 && new_seq[i].sk@
                        == k.1);
                if j < new_seq.len() - 1 {
                    assert(has_dig_key(old_seq, new_seq[j].pk@, new_seq[j].sk@));
                }
            }
            assert forall|k: (Seq<char>, Seq<char>)|
                has_dig_key(new_seq, k.0, k.1) && k != (pkv, skv) implies #[trigger] new_seq[
            dig_key_idx(new_seq, k.0, k.1)].posts@ == old_seq[dig_key_idx(
                old_seq,
                k.0,
                k.1,
            )].posts@ by {
                let j = dig_key_idx(new_seq, k.0, k.1);
                assert(0 <= j < new_seq.len() && new_seq[j].pk@ == k.0 && new_seq[j].sk@ == k.1);
                assert(j != new_seq.len() - 1);
                assert(new_seq[j] == old_seq[dig_key_idx(old_seq, new_seq[j].pk@, new_seq[j].sk@)]);
            }
            assert(self.digs() =~= old_self.digs().insert((pkv, skv), posts@));
            assert(self.subs() =~= old_self.subs());
            assert(self.pends() =~= old_self.pends());
            assert(self.snaps() =~= old_self.snaps());
        }
    }
}

impl Store {
    /// The index of the snapshot record with the given stamp, if one exists.
    fn find_snap(&self, sk: &str) -> (r: Option<usize>)
        ensures
            match r {
                Some(i) => i < self.snapshots@.len() && self.snapshots@[i as int].sk@ == sk@,
                None => !has_snap_key(self.snapshots@, sk@),
            },
    {
        let n = self.snapshots.len();
        let mut i: usize = 0;
        while i < n
            invariant
                n == self.snapshots@.len(),
                0 <= i <= n,
                forall|k: int| 0 <= k < i ==> #[trigger] self.snapshots@[k].sk@ != sk@,
            decreases n - i,
        {
            if crate::text::string_eq_str(&self.snapshots[i].sk, sk) {
                return Some(i);
            }
            i = i + 1;
        }
        None
    }

    /// Store the candidate snapshot for a date, overwriting any earlier one.
    pub fn snapshot_posts(&mut self, posts: &[Post], date: &Date)
        requires
            old(self).wf(),
            date.wf(),
        ensures
            final(self).wf(),
            final(self).snaps() == old(self).snaps().insert(spec_datestamp(*date), posts@),
            final(self).subs() == old(self).subs(),
            final(self).pends() == old(self).pends(),
            final(self).digs() == old(self).digs(),
    {
        let ghost old_self = *self;
        let ghost old_seq = self.snapshots@;
        let sk = datestamp(date);
        let ghost skv = sk@;
        let record = SnapshotRecord { sk, posts: clone_posts(posts) };
        let ghost rec_snap = record;
        let found = self.find_snap(record.sk.as_str());
        match found {
            Some(i) => {
                self.snapshots.remove(i);
                self.snapshots.push(record);
                proof {
                    lemma_remove_push_snap(old_seq, i as int, rec_snap);
                }
            },
            None => {
                self.snapshots.push(record);
                proof {
                    assert forall|k: int, l: int|
                        0 <= k < l < self.snapshots@.len() implies #[trigger] self.snapshots@[k].sk@
                        != #[trigger] self.snapshots@[l].sk@ by {
                        if l == self.snapshots@.len() - 1 {
                            assert(old_seq[k].sk@ != skv);
                        }
                    }
                }
            },
        }
        proof {
            let new_seq = self.snapshots@;
            assert forall|j: int| 0 <= j < new_seq.len() - 1 implies has_snap_key(
                old_seq,
                (#[trigger] new_seq[j]).sk@,
            ) && new_seq[j] == old_seq[snap_key_idx(old_seq, new_seq[j].sk@)] by {
                match found {
                    Some(i) => {
                        let sq = if j < i {
                            j as int
                        } else {
                            j + 1
                        };
                        assert(new_seq[j] == old_seq[sq]);
                        lemma_snap_at(old_seq, old_seq[sq].sk@, sq);
                    },
                    None => {
                        assert(new_seq[j] == old_seq[j]);
                        lemma_snap_at(old_seq, old_seq[j].sk@, j);
                    },
                }
            }
            assert forall|j: int|
                0 <= j < old_seq.len() && (#[trigger] old_seq[j]).sk@ != skv implies has_snap_key(
                new_seq,
                old_seq[j].sk@,
            ) by {
                match found {
                    Some(i) => {
                        assert(j != i);
                        if j < i {
                            assert(new_seq[j] == old_seq[j]);
                        } else {
                            assert(new_seq[j - 1] == old_seq[j]);
                        }
                    },
                    None => {
                        assert(new_seq[j] == old_seq[j]);
                    },
                }
            }
            lemma_snap_at(new_seq, skv, new_seq.len() - 1);
            assert forall|k: Seq<char>|
                has_snap_key(new_seq, k) implies (has_snap_key(old_seq, k) || k == skv) by {
                let j = snap_key_idx(new_seq, k);
                lemma_snap_at(new_seq, k, choose|i: int|
                    0 <= i < new_seq.len() && #[trigger] new_seq[i].sk@ == k);
                if j < new_seq.len() - 1 {
                    assert(has_snap_key(old_seq, new_seq[j].sk@));
                }
            }
            assert forall|k: Seq<char>|
                has_snap_key(new_seq, k) && k != skv implies #[trigger] new_seq[snap_key_idx(
                    new_seq,
                    k,
                )].posts@ == old_seq[snap_key_idx(old_seq, k)].posts@ by {
                let j = snap_key_idx(new_seq, k);
                assert(0 <= j < new_seq.len() && new_seq[j].sk@ == k);
                assert(j != new_seq.len() - 1);
                assert(new_seq[j] == old_seq[snap_key_idx(old_seq, new_seq[j].sk@)]);
            }
            assert(self.snaps() =~= old_self.snaps().insert(skv, posts@));
            assert(self.subs() =~= old_self.subs());
            assert(self.pends() =~= old_self.pends());
            assert(self.digs() =~= old_self.digs());
        }
    }

    /// The subscribers whose unsubscribe token is `t`.
    pub open spec fn token_matches(s: Seq<Subscriber>, t: Seq<char>) -> Seq<Subscriber> {
        s.filter(|x: Subscriber| x@.token == t)
    }

    /// Look up a subscriber through the secondary token index. Exactly one
    /// match yields the subscriber; none yields absence; more than one is an
    /// integrity violation, surfaced as an error rather than resolved
    /// silently.
    pub fn get_subscriber_by_unsubscribe_token(&self, token: &Token) -> (r: Result<
        Option<Subscriber>,
        StoreError,
    >)
        requires
            self.wf(),
        ensures
            ({
                let matches = Store::token_matches(self.subs_seq(), token@);
                match r {
                    Ok(None) => matches.len() == 0,
                    Ok(Some(s)) => matches.len() == 1 && s == matches[0] && s.wf()
                        && self.subs().dom().contains(s@.email) && self.subs()[s@.email] == s@,
                    Err(e) => matches.len() > 1 && e == StoreError::DuplicateToken,
                }
            }),
    {
        let ghost pred = |x: Subscriber| x@.token == token@;
        let n = self.subscribers.len();
        let mut found: Option<usize> = None;
        let mut count: usize = 0;
        let mut i: usize = 0;
        while i < n
            invariant
                n == self.subscribers@.len(),
                0 <= i <= n,
                pred == (|x: Subscriber| x@.token == token@),
                count == self.subscribers@.subrange(0, i as int).filter(pred).len(),
                count <= i,
                match found {
                    Some(f) => count >= 1 && f < i && self.subscribers@[f as int]@.token == token@
                        && self.subscribers@.subrange(0, i as int).filter(pred)[0]
                        == self.subscribers@[f as int],
                    None => count == 0,
                },
            decreases n - i,
        {
            proof {
                let prev = self.subscribers@.subrange(0, i as int);
                let x = self.subscribers@[i as int];
                assert(self.subscribers@.subrange(0, i + 1) =~= prev.push(x));
                prev.lemma_filter_push(x, pred);
            }
            let tok_eq = self.subscribers[i].unsubscribe_token.eq_token(token);
            if tok_eq {
                if found.is_none() {
                    found = Some(i);
                }
                count = count + 1;
            }
            i = i + 1;
        }
        proof {
            assert(self.subscribers@.subrange(0, n as int) =~= self.subscribers@);
        }
        if count == 0 {
            Ok(None)
        } else if count == 1 {
            match found {
                Some(f) => {
                    let s = self.subscribers[f].clone();
                    proof {
                        lemma_sub_at(self.subscribers@, s@.email, f as int);
                    }
                    Ok(Some(s))
                },
                None => {
                    // count >= 1 always records a first match
                    proof {
                        assert(false);
                    }
                    Ok(None)
                },
            }
        } else {
            Err(StoreError::DuplicateToken)
        }
    }

    /// The stored subscriber records, in storage order.
    pub closed spec fn subs_seq(&self) -> Seq<Subscriber> {
        self.subscribers@
    }

    /// All subscribers: the full logical set, one record per email.
    pub fn get_all_subscribers(&self) -> (r: Vec<Subscriber>)
        requires
            self.wf(),
        ensures
            r@ == self.subs_seq(),
            forall|i: int|
                0 <= i < r@.len() ==> self.subs().dom().contains(
                    (#[trigger] r@[i])@.email,
                ) && self.subs()[r@[i]@.email] == r@[i]@ && r@[i].wf(),
            forall|i: int, j: int|
                0 <= i < j < r@.len() ==> (#[trigger] r@[i])@.email != (#[trigger] r@[j])@.email,
            forall|e: Seq<char>|
                self.subs().dom().contains(e) ==> exists|i: int|
                    0 <= i < r@.len() && (#[trigger] r@[i])@.email == e,
    {
        let n = self.subscribers.len();
        let mut out: Vec<Subscriber> = Vec::new();
        let mut i: usize = 0;
        while i < n
            invariant
                n == self.subscribers@.len(),
                0 <= i <= n,
                out@ == self.subscribers@.subrange(0, i as int),
            decreases n - i,
        {
            out.push(self.subscribers[i].clone());
            i = i + 1;
            proof {
                assert(out@ =~= self.subscribers@.subrange(0, i as int));
            }
        }
        proof {
            assert(self.subscribers@.subrange(0, n as int) =~= self.subscribers@);
            assert forall|i: int| 0 <= i < out@.len() implies self.subs().dom().contains(
                (#[trigger] out@[i])@.email,
            ) && self.subs()[out@[i]@.email] == out@[i]@ && out@[i].wf() by {
                lemma_sub_at(self.subscribers@, out@[i]@.email, i);
            }
        }
        out
    }
}

/// A matching index pins down the chosen index: snapshot stamps are unique.
proof fn lemma_snap_at(s: Seq<SnapshotRecord>, sk: Seq<char>, i: int)
    requires
        unique_snap_keys(s),
        0 <= i < s.len(),
        s[i].sk@ == sk,
    ensures
        has_snap_key(s, sk),
        snap_key_idx(s, sk) == i,
{
    assert(has_snap_key(s, sk));
    let j = snap_key_idx(s, sk);
    assert(0 <= j < s.len() && s[j].sk@ == sk);
    if j < i {
        assert(s[j].sk@ != s[i].sk@);
    } else if i < j {
        assert(s[i].sk@ != s[j].sk@);
    }
}

/// Removing the snapshot that shares the new record's stamp and appending
/// the new one keeps stamp uniqueness.
proof fn lemma_remove_push_snap(old_seq: Seq<SnapshotRecord>, i: int, d: SnapshotRecord)
    requires
        unique_snap_keys(old_seq),
        0 <= i < old_seq.len(),
        old_seq[i].sk@ == d.sk@,
    ensures
        unique_snap_keys(old_seq.remove(i).push(d)),
        forall|j: int|
            0 <= j < old_seq.remove(i).push(d).len() ==> #[trigger] old_seq.remove(i).push(d)[j]
                == (if j < i {
                old_seq[j]
            } else if j < old_seq.len() - 1 {
                old_seq[j + 1]
            } else {
                d
            }),
{
    let t0 = old_seq.remove(i);
    assert(forall|j: int|
        0 <= j < t0.len() ==> #[trigger] t0[j] == (if j < i {
            old_seq[j]
        } else {
            old_seq[j + 1]
        }));
    assert forall|k: int, l: int| 0 <= k < l < t0.len() implies #[trigger] t0[k].sk@
        != #[trigger] t0[l].sk@ by {
        let sq = if k < i {
            k
        } else {
            k + 1
        };
        let sl = if l < i {
            l
        } else {
            l + 1
        };
        assert(old_seq[sq].sk@ != old_seq[sl].sk@);
    }
    let t = t0.push(d);
    assert(forall|j: int| 0 <= j < t.len() - 1 ==> #[trigger] t[j] == t0[j]);
    assert(t[t.len() - 1] == d);
    assert forall|k: int, l: int| 0 <= k < l < t.len() implies #[trigger] t[k].sk@
        != #[trigger] t[l].sk@ by {
        if l == t.len() - 1 {
            let sq = if k < i {
                k
            } else {
                k + 1
            };
            assert(t[k] == old_seq[sq]);
            if sq != i {
                assert(old_seq[sq].sk@ != old_seq[i].sk@);
            }
        }
    }
}

/// A matching index pins down the chosen index: digest keys are unique.
proof fn lemma_dig_at(s: Seq<DigestRecord>, pk: Seq<char>, sk: Seq<char>, i: int)
    requires
        unique_dig_keys(s),
        0 <= i < s.len(),
        s[i].pk@ == pk,
        s[i].sk@ == sk,
    ensures
        has_dig_key(s, pk, sk),
        dig_key_idx(s, pk, sk) == i,
{
    assert(has_dig_key(s, pk, sk));
    let j = dig_key_idx(s, pk, sk);
    assert(0 <= j < s.len() && s[j].pk@ == pk && s[j].sk@ == sk);
    if j < i {
        assert(!(s[j].pk@ == s[i].pk@ && s[j].sk@ == s[i].sk@));
    } else if i < j {
        assert(!(s[i].pk@ == s[j].pk@ && s[i].sk@ == s[j].sk@));
    }
}

/// Removing the digest record that shares the new record's key and
/// appending the new one keeps key uniqueness.
proof fn lemma_remove_push_dig(old_seq: Seq<DigestRecord>, i: int, d: DigestRecord)
    requires
        unique_dig_keys(old_seq),
        0 <= i < old_seq.len(),
        old_seq[i].pk@ == d.pk@,
        old_seq[i].sk@ == d.sk@,
    ensures
        unique_dig_keys(old_seq.remove(i).push(d)),
        forall|j: int|
            0 <= j < old_seq.remove(i).push(d).len() ==> #[trigger] old_seq.remove(i).push(d)[j]
                == (if j < i {
                old_seq[j]
            } else if j < old_seq.len() - 1 {
                old_seq[j + 1]
            } else {
                d
            }),
{
    let t0 = old_seq.remove(i);
    assert(forall|j: int|
        0 <= j < t0.len() ==> #[trigger] t0[j] == (if j < i {
            old_seq[j]
        } else {
            old_seq[j + 1]
        }));
    assert forall|k: int, l: int| 0 <= k < l < t0.len() implies !(#[trigger] t0[k].pk@
        == #[trigger] t0[l].pk@ && t0[k].sk@ == t0[l].sk@) by {
        let sk_ = if k < i {
            k
        } else {
            k + 1
        };
        let sl = if l < i {
            l
        } else {
            l + 1
        };
        assert(!(old_seq[sk_].pk@ == old_seq[sl].pk@ && old_seq[sk_].sk@ == old_seq[sl].sk@));
    }
    let t = t0.push(d);
    assert(forall|j: int| 0 <= j < t.len() - 1 ==> #[trigger] t[j] == t0[j]);
    assert(t[t.len() - 1] == d);
    assert forall|k: int, l: int| 0 <= k < l < t.len() implies !(#[trigger] t[k].pk@
        == #[trigger] t[l].pk@ && t[k].sk@ == t[l].sk@) by {
        if l == t.len() - 1 {
            let sq = if k < i {
                k
            } else {
                k + 1
            };
            assert(t[k] == old_seq[sq]);
            if sq != i {
                assert(!(old_seq[sq].pk@ == old_seq[i].pk@ && old_seq[sq].sk@ == old_seq[i].sk@));
            }
        }
    }
}

/// A matching index pins down the chosen index: pending emails are unique.
proof fn lemma_pend_at(s: Seq<PendingSubscription>, e: Seq<char>, i: int)
    requires
        unique_pend_emails(s),
        0 <= i < s.len(),
        s[i]@.email == e,
    ensures
        has_pend_email(s, e),
        pend_email_idx(s, e) == i,
{
    assert(has_pend_email(s, e));
    let j = pend_email_idx(s, e);
    assert(0 <= j < s.len() && s[j]@.email == e);
    if j < i {
        assert(s[j]@.email != s[i]@.email);
    } else if i < j {
        assert(s[i]@.email != s[j]@.email);
    }
}

/// Removing index `i` keeps or drops each pending email as expected.
proof fn lemma_remove_pend(s: Seq<PendingSubscription>, i: int)
    requires
        unique_pend_emails(s),
        0 <= i < s.len(),
    ensures
        unique_pend_emails(s.remove(i)),
        forall|j: int|
            0 <= j < s.remove(i).len() ==> #[trigger] s.remove(i)[j] == (if j < i {
                s[j]
            } else {
                s[j + 1]
            }),
{
    let t = s.remove(i);
    assert(forall|j: int|
        0 <= j < t.len() ==> #[trigger] t[j] == (if j < i {
            s[j]
        } else {
            s[j + 1]
        }));
    assert forall|k: int, l: int| 0 <= k < l < t.len() implies #[trigger] t[k]@.email
        != #[trigger] t[l]@.email by {
        let sk = if k < i {
            k
        } else {
            k + 1
        };
        let sl = if l < i {
            l
        } else {
            l + 1
        };
        assert(s[sk]@.email != s[sl]@.email);
    }
}

/// A pending email other than the removed one survives removal.
proof fn lemma_remove_keeps_pend(s: Seq<PendingSubscription>, i: int, k: Seq<char>)
    requires
        unique_pend_emails(s),
        0 <= i < s.len(),
        k != s[i]@.email,
    ensures
        has_pend_email(s.remove(i), k) == has_pend_email(s, k),
{
    let t = s.remove(i);
    assert(forall|j: int|
        0 <= j < t.len() ==> #[trigger] t[j] == (if j < i {
            s[j]
        } else {
            s[j + 1]
        }));
    if has_pend_email(s, k) {
        let j = choose|j: int| 0 <= j < s.len() && #[trigger] s[j]@.email == k;
        if j < i {
            assert(t[j]@.email == k);
        } else {
            assert(j != i);
            assert(t[j - 1]@.email == k);
        }
        assert(has_pend_email(t, k));
    }
    if has_pend_email(t, k) {
        let j = choose|j: int| 0 <= j < t.len() && #[trigger] t[j]@.email == k;
        if j < i {
            assert(s[j]@.email == k);
        } else {
            assert(s[j + 1]@.email == k);
        }
        assert(has_pend_email(s, k));
    }
}

/// Removing the pending record that shares `p`'s email and appending `p`
/// keeps uniqueness.
proof fn lemma_remove_push_pend(old_seq: Seq<PendingSubscription>, i: int, p: PendingSubscription)
    requires
        unique_pend_emails(old_seq),
        0 <= i < old_seq.len(),
        old_seq[i]@.email == p@.email,
    ensures
        unique_pend_emails(old_seq.remove(i).push(p)),
        forall|j: int|
            0 <= j < old_seq.remove(i).push(p).len() ==> #[trigger] old_seq.remove(i).push(p)[j]
                == (if j < i {
                old_seq[j]
            } else if j < old_seq.len() - 1 {
                old_seq[j + 1]
            } else {
                p
            }),
{
    lemma_remove_pend(old_seq, i);
    let t = old_seq.remove(i).push(p);
    assert(forall|j: int| 0 <= j < t.len() - 1 ==> #[trigger] t[j] == old_seq.remove(i)[j]);
    assert(t[t.len() - 1] == p);
    assert forall|k: int, l: int| 0 <= k < l < t.len() implies #[trigger] t[k]@.email
        != #[trigger] t[l]@.email by {
        if l == t.len() - 1 {
            let sk = if k < i {
                k
            } else {
                k + 1
            };
            assert(t[k] == old_seq[sk]);
            if sk != i {
                assert(old_seq[sk]@.email != old_seq[i]@.email);
            }
        }
    }
}

/// After removing any pending record with `p`'s email and appending `p`,
/// the map view is the old view with `p` inserted.
proof fn lemma_pend_map_after_upsert(
    old_seq: Seq<PendingSubscription>,
    new_seq: Seq<PendingSubscription>,
    p: PendingSubscription,
)
    requires
        unique_pend_emails(old_seq),
        unique_pend_emails(new_seq),
        new_seq.len() > 0,
        new_seq[new_seq.len() - 1] == p,
        forall|j: int|
            0 <= j < new_seq.len() - 1 ==> has_pend_email(
                old_seq,
                (#[trigger] new_seq[j])@.email,
            ) && new_seq[j] == old_seq[pend_email_idx(old_seq, new_seq[j]@.email)],
        forall|j: int|
            0 <= j < old_seq.len() && (#[trigger] old_seq[j])@.email != p@.email
                ==> has_pend_email(new_seq, old_seq[j]@.email),
    ensures
        forall|k: Seq<char>|
            has_pend_email(new_seq, k) <==> (has_pend_email(old_seq, k) || k == p@.email),
        forall|k: Seq<char>|
            has_pend_email(new_seq, k) && k != p@.email ==> #[trigger] new_seq[pend_email_idx(
                new_seq,
                k,
            )]@ == old_seq[pend_email_idx(old_seq, k)]@,
        has_pend_email(new_seq, p@.email) && new_seq[pend_email_idx(new_seq, p@.email)]@ == p@,
{
    lemma_pend_at(new_seq, p@.email, new_seq.len() - 1);
    assert forall|k: Seq<char>|
        has_pend_email(new_seq, k) implies (has_pend_email(old_seq, k) || k == p@.email) by {
        let j = pend_email_idx(new_seq, k);
        lemma_pend_at(new_seq, k, choose|i: int|
            0 <= i < new_seq.len() && #[trigger] new_seq[i]@.email == k);
        if j < new_seq.len() - 1 {
            assert(has_pend_email(old_seq, new_seq[j]@.email));
        }
    }
    assert forall|k: Seq<char>|
        has_pend_email(new_seq, k) && k != p@.email implies #[trigger] new_seq[pend_email_idx(
            new_seq,
            k,
        )]@ == old_seq[pend_email_idx(old_seq, k)]@ by {
        let j = pend_email_idx(new_seq, k);
        assert(0 <= j < new_seq.len() && new_seq[j]@.email == k);
        assert(j != new_seq.len() - 1);
        assert(new_seq[j] == old_seq[pend_email_idx(old_seq, new_seq[j]@.email)]);
    }
}

} // verus!
