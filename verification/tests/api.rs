use hndigest::api::{
    apply_subscription_request, json, redirect, subscribe_200, subscribe_500, text,
    unsubscribe_get_lookup, unsubscribe_post, validate_subscribe_request, verify_get,
    ApiResponse, SubscribeAction, SubscribeDecision,
};
use hndigest::email::EmailAddr;
use hndigest::lifecycle::create_pending_subscription;
use hndigest::store::Store;
use hndigest::strategies::DigestStrategy;
use hndigest::types::Subscriber;

const NOW: i64 = 1_700_000_000;

fn email(s: &str) -> EmailAddr {
    EmailAddr::parse(s).unwrap()
}

#[test]
fn response_statuses() {
    assert_eq!(json(200, "{}").status(), 200);
    assert_eq!(text(404, "nope").status(), 404);
    assert_eq!(redirect("/x").status(), 303);
    assert_eq!(ApiResponse::Html("<p>hi</p>".to_string()).status(), 200);
    assert_eq!(subscribe_200().status(), 200);
    assert_eq!(subscribe_500().status(), 500);
}

#[test]
fn response_redirect_location() {
    assert_eq!(redirect("/go").redirect_location(), Some("/go"));
    assert_eq!(json(200, "{}").redirect_location(), None);
}

#[test]
fn response_body_contains() {
    assert!(subscribe_200().body_contains("Check your email"));
    assert!(!subscribe_200().body_contains("nope"));
    assert!(!redirect("/x").body_contains("x"));
}

#[test]
fn validate_honeypot_wins() {
    let d = validate_subscribe_request("a@example.com", "TOP_N#10", "http://spam", "tok");
    assert!(matches!(d, SubscribeDecision::HoneypotHit));
}

#[test]
fn validate_rejects_bad_strategy() {
    let d = validate_subscribe_request("a@example.com", "BOGUS", "", "tok");
    assert!(matches!(d, SubscribeDecision::InvalidStrategy));
}

#[test]
fn validate_rejects_bad_email() {
    let d = validate_subscribe_request("not-an-email", "TOP_N#10", "", "tok");
    assert!(matches!(d, SubscribeDecision::InvalidEmail));
}

#[test]
fn validate_requires_captcha_token() {
    let d = validate_subscribe_request("a@example.com", "TOP_N#10", "", "");
    assert!(matches!(d, SubscribeDecision::MissingCaptchaToken));
}

#[test]
fn validate_accepts_good_request() {
    match validate_subscribe_request("User@Example.com", "TOP_N#10", "", "tok") {
        SubscribeDecision::Proceed(e, st) => {
            assert_eq!(e.as_str(), "user@example.com");
            assert_eq!(st, DigestStrategy::TopN(10));
        }
        _ => panic!("expected the request to pass validation"),
    }
}

#[test]
fn apply_new_email_creates_pending() {
    let mut store = Store::new();
    let addr = email("new@example.com");
    match apply_subscription_request(&mut store, &addr, DigestStrategy::TopN(10), NOW).unwrap() {
        SubscribeAction::PendingCreated(p) => {
            assert_eq!(p.email.as_str(), "new@example.com");
        }
        _ => panic!("expected a pending subscription for a new email"),
    }
    assert!(store.get_pending_subscription(&addr).is_some());
    assert!(store.get_subscriber_by_email(&addr).is_none());
}

#[test]
fn apply_existing_subscriber_updates_strategy() {
    let mut store = Store::new();
    let addr = email("existing@example.com");
    store.upsert_subscriber(Subscriber::new(addr.clone(), DigestStrategy::TopN(10), NOW));
    match apply_subscription_request(&mut store, &addr, DigestStrategy::TopN(50), NOW).unwrap() {
        SubscribeAction::Updated(old) => assert_eq!(old, DigestStrategy::TopN(10)),
        _ => panic!("expected an in-place strategy update"),
    }
    assert_eq!(
        store.get_subscriber_by_email(&addr).unwrap().strategy,
        DigestStrategy::TopN(50)
    );
    // never a second record
    assert_eq!(store.get_all_subscribers().len(), 1);
}

#[test]
fn verify_valid_token_creates_subscriber_and_redirects_to_success() {
    let mut store = Store::new();
    let addr = email("verify@example.com");
    let pending =
        create_pending_subscription(&mut store, &addr, DigestStrategy::TopN(10), NOW).unwrap();
    let token_str = pending.token.as_str().to_string();

    let resp = verify_get(&mut store, "verify@example.com", &token_str, NOW);

    assert_eq!(resp.status(), 303);
    assert_eq!(resp.redirect_location(), Some("/verify-success.html"));
    assert!(store.get_subscriber_by_email(&addr).is_some());
}

#[test]
fn verify_wrong_token_redirects_to_error() {
    let mut store = Store::new();
    let addr = email("verify@example.com");
    create_pending_subscription(&mut store, &addr, DigestStrategy::TopN(10), NOW).unwrap();

    let resp = verify_get(&mut store, "verify@example.com", "wrong-token", NOW);

    assert_eq!(resp.status(), 303);
    assert_eq!(resp.redirect_location(), Some("/verify-error.html"));
    assert!(store.get_subscriber_by_email(&addr).is_none());
}

#[test]
fn verify_invalid_email_redirects_to_error() {
    let mut store = Store::new();
    let resp = verify_get(&mut store, "not-an-email", "some-token", NOW);
    assert_eq!(resp.status(), 303);
    assert_eq!(resp.redirect_location(), Some("/verify-error.html"));
}

#[test]
fn unsubscribe_get_valid_token_finds_subscriber() {
    let mut store = Store::new();
    let sub = Subscriber::new(email("unsub@example.com"), DigestStrategy::TopN(10), NOW);
    let token = sub.unsubscribe_token.as_str().to_string();
    store.upsert_subscriber(sub);

    let found = unsubscribe_get_lookup(&store, &token);
    assert!(found.is_some());
    assert_eq!(found.unwrap().email.as_str(), "unsub@example.com");
}

#[test]
fn unsubscribe_get_unknown_token_finds_nothing() {
    let store = Store::new();
    assert!(unsubscribe_get_lookup(&store, "unknown-token").is_none());
}

#[test]
fn unsubscribe_post_browser_valid_token_redirects_to_success() {
    let mut store = Store::new();
    let addr = email("unsub@example.com");
    let sub = Subscriber::new(addr.clone(), DigestStrategy::TopN(10), NOW);
    let token = sub.unsubscribe_token.as_str().to_string();
    store.upsert_subscriber(sub);

    let resp = unsubscribe_post(&mut store, &token, None);

    assert_eq!(resp.status(), 303);
    assert_eq!(resp.redirect_location(), Some("/unsubscribe-success.html"));
    assert!(store.get_subscriber_by_email(&addr).is_none());
}

#[test]
fn unsubscribe_post_one_click_returns_200_text() {
    let mut store = Store::new();
    let addr = email("oneclick@example.com");
    let sub = Subscriber::new(addr.clone(), DigestStrategy::TopN(10), NOW);
    let token = sub.unsubscribe_token.as_str().to_string();
    store.upsert_subscriber(sub);

    let resp = unsubscribe_post(&mut store, &token, Some("List-Unsubscribe=One-Click"));

    assert_eq!(resp.status(), 200);
    assert!(store.get_subscriber_by_email(&addr).is_none());
}

#[test]
fn unsubscribe_post_unknown_token_browser_redirects_to_error() {
    let mut store = Store::new();
    let resp = unsubscribe_post(&mut store, "bogus", None);
    assert_eq!(resp.status(), 303);
    assert_eq!(resp.redirect_location(), Some("/unsubscribe-error.html"));
}

#[test]
fn unsubscribe_post_unknown_token_one_click_returns_404() {
    let mut store = Store::new();
    let resp = unsubscribe_post(&mut store, "bogus", Some("List-Unsubscribe=One-Click"));
    assert_eq!(resp.status(), 404);
}

#[test]
fn unsubscribe_post_empty_token_is_bad_request() {
    let mut store = Store::new();
    let resp = unsubscribe_post(&mut store, "", None);
    assert_eq!(resp.status(), 400);
    assert!(resp.body_contains("Invalid token"));
}
