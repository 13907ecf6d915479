use hndigest::email::EmailAddr;
use hndigest::lifecycle::{
    create_pending_subscription, remove_subscriber, update_subscription_strategy,
    verify_subscription,
};
use hndigest::store::Store;
use hndigest::strategies::DigestStrategy;
use hndigest::types::{Subscriber, Token};

const NOW: i64 = 1_700_000_000;

fn email(s: &str) -> EmailAddr {
    EmailAddr::parse(s).unwrap()
}

#[test]
fn create_pending_stores_record() {
    let mut store = Store::new();
    let strategy = DigestStrategy::TopN(10);
    let email = email("new@example.com");

    let pending = create_pending_subscription(&mut store, &email, strategy, NOW).unwrap();

    assert_eq!(pending.email.as_str(), "new@example.com");
    assert_eq!(pending.strategy, strategy);

    // Verify the record was actually stored
    let stored = store.get_pending_subscription(&email).unwrap();
    assert!(stored.token.eq_token(&pending.token));
}

#[test]
fn create_pending_expires_one_day_later() {
    let mut store = Store::new();
    let pending = create_pending_subscription(
        &mut store,
        &email("new@example.com"),
        DigestStrategy::TopN(10),
        NOW,
    )
    .unwrap();
    assert_eq!(pending.created_at, NOW);
    assert_eq!(pending.expires_at, NOW + 86400);
}

#[test]
fn verify_subscription_valid_token_creates_subscriber() {
    let mut store = Store::new();
    let addr = email("verify@example.com");
    let pending =
        create_pending_subscription(&mut store, &addr, DigestStrategy::TopN(20), NOW).unwrap();
    let token = pending.token;

    let result = verify_subscription(&mut store, &addr, &token, NOW).unwrap();

    assert!(result.is_some());
    let sub = result.unwrap();
    assert_eq!(sub.email.as_str(), "verify@example.com");
    assert_eq!(sub.strategy, DigestStrategy::TopN(20));

    // Subscriber should now be in storage
    let stored = store.get_subscriber_by_email(&addr);
    assert!(stored.is_some());
}

#[test]
fn verify_subscription_wrong_token_returns_none() {
    let mut store = Store::new();
    let addr = email("verify@example.com");
    create_pending_subscription(&mut store, &addr, DigestStrategy::TopN(10), NOW).unwrap();
    let wrong_token = Token::parse("wrong-token").unwrap();

    let result = verify_subscription(&mut store, &addr, &wrong_token, NOW).unwrap();

    assert!(result.is_none());
    // No subscriber should have been created
    let stored = store.get_subscriber_by_email(&addr);
    assert!(stored.is_none());
}

#[test]
fn verify_subscription_no_pending_returns_none() {
    let mut store = Store::new();
    let token = Token::parse("some-token").unwrap();

    let result = verify_subscription(&mut store, &email("nobody@example.com"), &token, NOW)
        .unwrap();

    assert!(result.is_none());
}

#[test]
fn verify_subscription_twice_succeeds_without_duplicate() {
    let mut store = Store::new();
    let addr = email("twice@example.com");
    let pending =
        create_pending_subscription(&mut store, &addr, DigestStrategy::TopN(10), NOW).unwrap();
    let token = pending.token;

    let first = verify_subscription(&mut store, &addr, &token, NOW).unwrap();
    assert!(first.is_some());
    let second = verify_subscription(&mut store, &addr, &token, NOW + 5).unwrap();
    assert!(second.is_some());

    let s1 = first.unwrap();
    let s2 = second.unwrap();
    assert_eq!(s1.email.as_str(), s2.email.as_str());
    assert_eq!(s1.strategy, s2.strategy);

    // still exactly one record for the email
    assert_eq!(store.get_all_subscribers().len(), 1);
}

#[test]
fn update_strategy_persists_new_and_returns_old() {
    let mut store = Store::new();
    let addr = email("sub@example.com");
    let sub = Subscriber::new(addr.clone(), DigestStrategy::TopN(10), NOW);
    store.upsert_subscriber(sub);

    let existing = store.get_subscriber_by_email(&addr).unwrap();
    let old = update_subscription_strategy(&mut store, existing, DigestStrategy::TopN(50))
        .unwrap();

    assert_eq!(old, DigestStrategy::TopN(10));

    let updated = store.get_subscriber_by_email(&addr).unwrap();
    assert_eq!(updated.strategy, DigestStrategy::TopN(50));
}

#[test]
fn update_strategy_preserves_token_and_time() {
    let mut store = Store::new();
    let addr = email("keep@example.com");
    let sub = Subscriber::new(addr.clone(), DigestStrategy::TopN(10), NOW);
    let token_text = sub.unsubscribe_token.as_str().to_string();
    store.upsert_subscriber(sub);

    let existing = store.get_subscriber_by_email(&addr).unwrap();
    update_subscription_strategy(&mut store, existing, DigestStrategy::OverPointThreshold(250))
        .unwrap();

    let updated = store.get_subscriber_by_email(&addr).unwrap();
    assert_eq!(updated.subscribed_at, NOW);
    assert_eq!(updated.unsubscribe_token.as_str(), token_text);
}

#[test]
fn remove_subscriber_found_removes_and_returns_true() {
    let mut store = Store::new();
    let addr = email("unsub@example.com");
    let sub = Subscriber::new(addr.clone(), DigestStrategy::TopN(10), NOW);
    let token = sub.unsubscribe_token.clone();
    store.upsert_subscriber(sub);

    let result = remove_subscriber(&mut store, &token).unwrap();

    assert!(result);
    assert!(store.get_subscriber_by_email(&addr).is_none());
}

#[test]
fn remove_subscriber_not_found_returns_false() {
    let mut store = Store::new();
    let token = Token::parse("unknown-token").unwrap();

    let result = remove_subscriber(&mut store, &token).unwrap();

    assert!(!result);
}

#[test]
fn remove_subscriber_does_not_affect_other_subscribers() {
    let mut store = Store::new();
    let keep = email("keep@example.com");
    let gone = email("remove@example.com");
    let sub1 = Subscriber::new(keep.clone(), DigestStrategy::TopN(10), NOW);
    let sub2 = Subscriber::new(gone.clone(), DigestStrategy::TopN(10), NOW);
    let token = sub2.unsubscribe_token.clone();
    store.upsert_subscriber(sub1);
    store.upsert_subscriber(sub2);

    remove_subscriber(&mut store, &token).unwrap();

    assert!(store.get_subscriber_by_email(&keep).is_some());
    assert!(store.get_subscriber_by_email(&gone).is_none());
}

#[test]
fn duplicate_tokens_surface_integrity_error() {
    let mut store = Store::new();
    // two subscribers sharing one token: built by hand, never by the library
    let t1 = Token::parse("shared-token").unwrap();
    let t2 = Token::parse("shared-token").unwrap();
    let s1 = Subscriber {
        email: email("one@example.com"),
        strategy: DigestStrategy::TopN(10),
        subscribed_at: NOW,
        unsubscribe_token: t1,
    };
    let s2 = Subscriber {
        email: email("two@example.com"),
        strategy: DigestStrategy::TopN(10),
        subscribed_at: NOW,
        unsubscribe_token: t2,
    };
    store.upsert_subscriber(s1);
    store.upsert_subscriber(s2);

    let token = Token::parse("shared-token").unwrap();
    let result = remove_subscriber(&mut store, &token);
    assert!(result.is_err());
    // nothing was removed
    assert_eq!(store.get_all_subscribers().len(), 2);
}
