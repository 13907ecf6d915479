//! Core records: tokens, posts, subscribers and pending subscriptions.
//!
//! Times are plain Unix timestamps (seconds); the surrounding program decides
//! what "now" is and hands it in.

use vstd::prelude::*;
use crate::email::EmailAddr;
use crate::strategies::{valid_strategy, DigestStrategy};

verus! {

/// The number of seconds in one day; pending subscriptions expire one day
/// after creation.
pub const DAY_SECONDS: i64 = 86400;

/// A non-empty opaque credential (verification and unsubscribe tokens).
pub struct Token {
    s: String,
}

impl View for Token {
    type V = Seq<char>;

    closed spec fn view(&self) -> Seq<char> {
        self.s@
    }
}

impl Token {
    /// Tokens are never empty.
    pub open spec fn wf(&self) -> bool {
        self@.len() > 0
    }

    /// Accept any non-empty string as a token.
    pub fn parse(s: &str) -> (r: Result<Token, &'static str>)
        ensures
            r is Ok <==> s@.len() > 0,
            r is Ok ==> r->Ok_0@ == s@ && r->Ok_0.wf(),
    {
        if s.is_empty() {
            Err("token cannot be empty")
        } else {
            Ok(Token { s: s.to_owned() })
        }
    }

    /// Accept any non-empty owned string as a token.
    pub fn try_from(s: String) -> (r: Result<Token, &'static str>)
        ensures
            r is Ok <==> s@.len() > 0,
            r is Ok ==> r->Ok_0@ == s@ && r->Ok_0.wf(),
    {
        if s.as_str().is_empty() {
            Err("token cannot be empty")
        } else {
            Ok(Token { s })
        }
    }

    /// Relies on uuid::Uuid::new_v4: a fresh random version-4 UUID whose
    /// hyphenated string form is always 36 characters. Nothing relates two
    /// generated tokens; callers get only the length.
    #[verifier::external_body]
    pub fn generate() -> (r: Token)
        ensures
            r@.len() == 36,
    {
        Token { s: uuid::Uuid::new_v4().to_string() }
    }

    /// The token text.
    pub fn as_str(&self) -> (r: &str)
        ensures
            r@ == self@,
    {
        self.s.as_str()
    }

    /// Character-for-character token comparison.
    pub fn eq_token(&self, other: &Token) -> (r: bool)
        ensures
            r == (self@ == other@),
    {
        self.s == other.s
    }
}

impl Clone for Token {
    fn clone(&self) -> (r: Self)
        ensures
            r == *self,
    {
        Token { s: self.s.clone() }
    }
}

/// A candidate item fetched from the content source. Immutable once fetched.
pub struct Post {
    pub object_id: String,
    pub title: String,
    pub url: Option<String>,
    pub points: i32,
    pub created_at: String,
}

impl Clone for Post {
    fn clone(&self) -> (r: Self)
        ensures
            r == *self,
    {
        Post {
            object_id: self.object_id.clone(),
            title: self.title.clone(),
            url: match &self.url {
                Some(u) => Some(u.clone()),
                None => None,
            },
            points: self.points,
            created_at: self.created_at.clone(),
        }
    }
}

/// The abstract value of a subscriber record.
pub ghost struct SubscriberV {
    pub email: Seq<char>,
    pub strategy: DigestStrategy,
    pub subscribed_at: int,
    pub token: Seq<char>,
}

/// A verified subscriber. Exactly one live record exists per normalized
/// email address.
pub struct Subscriber {
    pub email: EmailAddr,
    pub strategy: DigestStrategy,
    pub subscribed_at: i64,
    pub unsubscribe_token: Token,
}

impl View for Subscriber {
    type V = SubscriberV;

    open spec fn view(&self) -> SubscriberV {
        SubscriberV {
            email: self.email@,
            strategy: self.strategy,
            subscribed_at: self.subscribed_at as int,
            token: self.unsubscribe_token@,
        }
    }
}

impl Subscriber {
    /// A valid email, a configured strategy and a non-empty token.
    pub open spec fn wf(&self) -> bool {
        self.email.wf() && valid_strategy(self.strategy) && self.unsubscribe_token.wf()
    }

    /// Create a verified subscriber with a freshly generated unsubscribe
    /// token.
    pub fn new(email: EmailAddr, strategy: DigestStrategy, now: i64) -> (r: Subscriber)
        ensures
            r@.email == email@,
            r@.strategy == strategy,
            r@.subscribed_at == now as int,
            r@.token.len() == 36,
            email.wf() && valid_strategy(strategy) ==> r.wf(),
    {
        Subscriber {
            email,
            strategy,
            subscribed_at: now,
            unsubscribe_token: Token::generate(),
        }
    }
}

impl Clone for Subscriber {
    fn clone(&self) -> (r: Self)
        ensures
            r == *self,
    {
        Subscriber {
            email: self.email.clone(),
            strategy: self.strategy,
            subscribed_at: self.subscribed_at,
            unsubscribe_token: self.unsubscribe_token.clone(),
        }
    }
}

/// The abstract value of a pending-subscription record.
pub ghost struct PendingV {
    pub email: Seq<char>,
    pub token: Seq<char>,
    pub strategy: DigestStrategy,
    pub created_at: int,
    pub expires_at: int,
}

/// An unverified subscribe request awaiting confirmation. At most one exists
/// per email; it expires one day after creation.
pub struct PendingSubscription {
    pub email: EmailAddr,
    pub token: Token,
    pub strategy: DigestStrategy,
    pub created_at: i64,
    pub expires_at: i64,
}

impl View for PendingSubscription {
    type V = PendingV;

    open spec fn view(&self) -> PendingV {
        PendingV {
            email: self.email@,
            token: self.token@,
            strategy: self.strategy,
            created_at: self.created_at as int,
            expires_at: self.expires_at as int,
        }
    }
}

impl PendingSubscription {
    /// A valid email, a configured strategy and a non-empty token.
    pub open spec fn wf(&self) -> bool {
        self.email.wf() && valid_strategy(self.strategy) && self.token.wf()
    }

    /// Create a pending subscription with a fresh verification token,
    /// expiring one day after `now`.
    pub fn new(email: EmailAddr, strategy: DigestStrategy, now: i64) -> (r: PendingSubscription)
        requires
            now + DAY_SECONDS <= i64::MAX,
        ensures
            r@.email == email@,
            r@.strategy == strategy,
            r@.created_at == now as int,
            r@.expires_at == now + DAY_SECONDS,
            r@.token.len() == 36,
            email.wf() && valid_strategy(strategy) ==> r.wf(),
    {
        PendingSubscription {
            email,
            token: Token::generate(),
            strategy,
            created_at: now,
            expires_at: now + DAY_SECONDS,
        }
    }
}

impl Clone for PendingSubscription {
    fn clone(&self) -> (r: Self)
        ensures
            r == *self,
    {
        PendingSubscription {
            email: self.email.clone(),
            token: self.token.clone(),
            strategy: self.strategy,
            created_at: self.created_at,
            expires_at: self.expires_at,
        }
    }
}

impl core::str::FromStr for Token {
    type Err = &'static str;

    fn from_str(s: &str) -> Result<Self, Self::Err> {
        Token::parse(s)
    }
}

} // verus!
