use hndigest::email::EmailAddr;
use hndigest::posts::{post_from_value, post_to_value, posts_from_value, posts_to_value};
use hndigest::records::{
    pending_from_item, pending_to_item, subscriber_from_item, subscriber_to_item,
};
use hndigest::strategies::DigestStrategy;
use hndigest::types::{PendingSubscription, Post, Subscriber};
use hndigest::value::{Attr, Value};

const NOW: i64 = 1_700_000_000;

fn make_subscriber_item(
    email: &str,
    strategy: &str,
    subscribed_at: &str,
    token: &str,
) -> Vec<(String, Attr)> {
    vec![
        ("email".to_string(), Attr::S(email.to_string())),
        ("strategy".to_string(), Attr::S(strategy.to_string())),
        (
            "subscribed_at".to_string(),
            Attr::N(subscribed_at.to_string()),
        ),
        ("unsubscribe_token".to_string(), Attr::S(token.to_string())),
    ]
}

#[test]
fn subscriber_from_item_valid() {
    let item = make_subscriber_item("test@example.com", "TOP_N#10", "1700000000", "some-token");
    let sub = subscriber_from_item(&item).unwrap();
    assert_eq!(sub.email.as_str(), "test@example.com");
    assert_eq!(sub.strategy, DigestStrategy::TopN(10));
    assert_eq!(sub.unsubscribe_token.as_str(), "some-token");
    assert_eq!(sub.subscribed_at, 1700000000);
}

#[test]
fn subscriber_from_item_missing_email() {
    let item = vec![
        ("strategy".to_string(), Attr::S("TOP_N#10".to_string())),
        (
            "subscribed_at".to_string(),
            Attr::N("1700000000".to_string()),
        ),
        ("unsubscribe_token".to_string(), Attr::S("token".to_string())),
    ];
    assert!(subscriber_from_item(&item).is_err());
}

#[test]
fn subscriber_from_item_invalid_strategy() {
    let item = make_subscriber_item("test@example.com", "INVALID_STRATEGY", "1700000000", "token");
    assert!(subscriber_from_item(&item).is_err());
}

#[test]
fn subscriber_item_roundtrip() {
    let email = EmailAddr::parse("round@example.com").unwrap();
    let s = Subscriber::new(email, DigestStrategy::OverPointThreshold(250), NOW);
    let item = subscriber_to_item(&s);
    let back = subscriber_from_item(&item).unwrap();
    assert_eq!(back.email.as_str(), s.email.as_str());
    assert_eq!(back.strategy, s.strategy);
    assert_eq!(back.subscribed_at, s.subscribed_at);
    assert_eq!(back.unsubscribe_token.as_str(), s.unsubscribe_token.as_str());
}

#[test]
fn pending_subscription_from_item_valid() {
    let item = vec![
        ("token".to_string(), Attr::S("abc-token".to_string())),
        ("email".to_string(), Attr::S("pending@example.com".to_string())),
        (
            "strategy".to_string(),
            Attr::S("POINT_THRESHOLD#100".to_string()),
        ),
        ("created_at".to_string(), Attr::N("1700000000".to_string())),
        ("expires_at".to_string(), Attr::N("1700086400".to_string())),
    ];
    let pending = pending_from_item(&item).unwrap();
    assert_eq!(pending.email.as_str(), "pending@example.com");
    assert_eq!(pending.strategy, DigestStrategy::OverPointThreshold(100));
    assert_eq!(pending.token.as_str(), "abc-token");
}

#[test]
fn pending_subscription_from_item_missing_token() {
    let item = vec![
        ("email".to_string(), Attr::S("pending@example.com".to_string())),
        ("strategy".to_string(), Attr::S("TOP_N#10".to_string())),
        ("created_at".to_string(), Attr::N("1700000000".to_string())),
        ("expires_at".to_string(), Attr::N("9999999999".to_string())),
    ];
    assert!(pending_from_item(&item).is_err());
}

#[test]
fn pending_item_roundtrip() {
    let email = EmailAddr::parse("p@example.com").unwrap();
    let p = PendingSubscription::new(email, DigestStrategy::TopN(50), NOW);
    let item = pending_to_item(&p);
    let back = pending_from_item(&item).unwrap();
    assert_eq!(back.email.as_str(), p.email.as_str());
    assert_eq!(back.token.as_str(), p.token.as_str());
    assert_eq!(back.strategy, p.strategy);
    assert_eq!(back.created_at, p.created_at);
    assert_eq!(back.expires_at, p.expires_at);
}

fn make_post(id: &str, points: i32, url: Option<&str>) -> Post {
    Post {
        object_id: id.to_string(),
        title: format!("Post {}", id),
        url: url.map(|u| u.to_string()),
        points,
        created_at: "2024-01-01T00:00:00Z".to_string(),
    }
}

#[test]
fn post_value_roundtrip() {
    for p in [
        make_post("a", 500, Some("https://example.com/a")),
        make_post("b", -3, None),
    ] {
        let v = post_to_value(&p);
        let back = post_from_value(&v).unwrap();
        assert_eq!(back.object_id, p.object_id);
        assert_eq!(back.title, p.title);
        assert_eq!(back.url, p.url);
        assert_eq!(back.points, p.points);
        assert_eq!(back.created_at, p.created_at);
    }
}

#[test]
fn post_list_value_roundtrip() {
    let posts = vec![
        make_post("a", 500, Some("https://example.com/a")),
        make_post("b", 200, None),
    ];
    let v = posts_to_value(&posts);
    let back = posts_from_value(&v).unwrap();
    assert_eq!(back.len(), 2);
    assert_eq!(back[0].object_id, "a");
    assert_eq!(back[1].object_id, "b");
}

#[test]
fn post_from_value_rejects_bad_points() {
    let v = Value::Obj(vec![
        ("objectID".to_string(), Value::Str("a".to_string())),
        ("title".to_string(), Value::Str("t".to_string())),
        ("points".to_string(), Value::Str("many".to_string())),
        (
            "created_at".to_string(),
            Value::Str("2024-01-01".to_string()),
        ),
    ]);
    assert!(post_from_value(&v).is_err());
}

#[test]
fn post_from_value_missing_url_is_none() {
    let v = Value::Obj(vec![
        ("objectID".to_string(), Value::Str("a".to_string())),
        ("title".to_string(), Value::Str("t".to_string())),
        ("points".to_string(), Value::Int(5)),
        (
            "created_at".to_string(),
            Value::Str("2024-01-01".to_string()),
        ),
    ]);
    let p = post_from_value(&v).unwrap();
    assert_eq!(p.url, None);
}
