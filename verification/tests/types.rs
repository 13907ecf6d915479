use hndigest::email::EmailAddr;
use hndigest::strategies::DigestStrategy;
use hndigest::types::{PendingSubscription, Subscriber, Token};

const NOW: i64 = 1_700_000_000;

#[test]
fn token_empty_string_is_rejected() {
    assert!("".parse::<Token>().is_err());
    assert!(Token::try_from("".to_string()).is_err());
}

#[test]
fn token_non_empty_string_is_accepted() {
    let t: Token = "abc".parse().unwrap();
    assert_eq!(t.as_str(), "abc");
}

#[test]
fn token_generate_is_non_empty() {
    let t = Token::generate();
    assert!(!t.as_str().is_empty());
    assert_eq!(t.as_str().len(), 36);
}

#[test]
fn pending_subscription_expires_24h_after_creation() {
    let email = EmailAddr::parse("test@example.com").unwrap();
    let pending = PendingSubscription::new(email, DigestStrategy::TopN(10), NOW);
    assert_eq!(pending.expires_at, NOW + 24 * 60 * 60);
}

#[test]
fn subscriber_new_generates_fresh_token() {
    let email = EmailAddr::parse("test@example.com").unwrap();
    let s = Subscriber::new(email, DigestStrategy::TopN(10), NOW);
    assert_eq!(s.subscribed_at, NOW);
    assert_eq!(s.unsubscribe_token.as_str().len(), 36);
}

#[test]
fn email_is_normalized_to_lowercase() {
    let email = EmailAddr::parse("User@Example.COM").unwrap();
    assert_eq!(email.as_str(), "user@example.com");
}

#[test]
fn invalid_email_is_rejected() {
    assert!(EmailAddr::parse("not-an-email").is_none());
    assert!(EmailAddr::parse("").is_none());
    assert!(EmailAddr::parse("a@").is_none());
}
