use hndigest::builder::snapshot_fetch_params;
use hndigest::date::{datestamp, Date};
use hndigest::email::EmailAddr;
use hndigest::store::{digest_partition_key, Store};
use hndigest::strategies::DigestStrategy;
use hndigest::types::{Post, Subscriber};

const NOW: i64 = 1_700_000_000;

fn make_post(id: &str, points: i32) -> Post {
    Post {
        object_id: id.to_string(),
        title: format!("Post {}", id),
        url: None,
        points,
        created_at: "2024-01-01T00:00:00Z".to_string(),
    }
}

#[test]
fn datestamp_is_zero_padded() {
    assert_eq!(
        datestamp(&Date { year: 2024, month: 6, day: 5 }),
        "2024-06-05"
    );
    assert_eq!(datestamp(&Date { year: 987, month: 12, day: 31 }), "0987-12-31");
}

#[test]
fn prev_day_handles_month_and_year_boundaries() {
    let d = Date { year: 2024, month: 3, day: 1 };
    assert_eq!(d.prev_day(), Date { year: 2024, month: 2, day: 29 });
    let d = Date { year: 2023, month: 3, day: 1 };
    assert_eq!(d.prev_day(), Date { year: 2023, month: 2, day: 28 });
    let d = Date { year: 2024, month: 1, day: 1 };
    assert_eq!(d.prev_day(), Date { year: 2023, month: 12, day: 31 });
    let d = Date { year: 2024, month: 6, day: 15 };
    assert_eq!(d.prev_day(), Date { year: 2024, month: 6, day: 14 });
}

#[test]
fn digest_partition_key_embeds_strategy() {
    assert_eq!(digest_partition_key("TOP_N#10"), "DIGEST#TOP_N#10");
}

#[test]
fn digests_are_keyed_by_strategy_and_date() {
    let mut store = Store::new();
    let d1 = Date { year: 2024, month: 6, day: 15 };
    let d2 = Date { year: 2024, month: 6, day: 16 };
    store.save_digest("TOP_N#10", &d1, &[make_post("a", 1)]);
    store.save_digest("TOP_N#10", &d2, &[make_post("b", 2)]);
    store.save_digest("TOP_N#20", &d1, &[make_post("c", 3)]);

    assert_eq!(store.fetch_digest("TOP_N#10", &d1).unwrap()[0].object_id, "a");
    assert_eq!(store.fetch_digest("TOP_N#10", &d2).unwrap()[0].object_id, "b");
    assert_eq!(store.fetch_digest("TOP_N#20", &d1).unwrap()[0].object_id, "c");
    assert!(store.fetch_digest("TOP_N#50", &d1).is_none());
}

#[test]
fn save_digest_overwrites_same_key() {
    let mut store = Store::new();
    let d = Date { year: 2024, month: 6, day: 15 };
    store.save_digest("TOP_N#10", &d, &[make_post("a", 1)]);
    store.save_digest("TOP_N#10", &d, &[make_post("b", 2), make_post("c", 3)]);
    let got = store.fetch_digest("TOP_N#10", &d).unwrap();
    assert_eq!(got.len(), 2);
    assert_eq!(got[0].object_id, "b");
}

#[test]
fn snapshot_is_stored_per_date() {
    let mut store = Store::new();
    let d = Date { year: 2024, month: 6, day: 15 };
    store.snapshot_posts(&[make_post("a", 1)], &d);
    // snapshots and digests do not collide
    assert!(store.fetch_digest("TOP_N#10", &d).is_none());
}

#[test]
fn get_all_subscribers_returns_every_record_once() {
    let mut store = Store::new();
    for e in ["a@example.com", "b@example.com", "c@example.com"] {
        store.upsert_subscriber(Subscriber::new(
            EmailAddr::parse(e).unwrap(),
            DigestStrategy::TopN(10),
            NOW,
        ));
    }
    let all = store.get_all_subscribers();
    assert_eq!(all.len(), 3);
    let mut emails: Vec<String> = all.iter().map(|s| s.email.as_str().to_string()).collect();
    emails.sort();
    assert_eq!(emails, vec!["a@example.com", "b@example.com", "c@example.com"]);
}

#[test]
fn upsert_subscriber_is_keyed_by_normalized_email() {
    let mut store = Store::new();
    let a1 = EmailAddr::parse("Same@Example.com").unwrap();
    let a2 = EmailAddr::parse("same@example.com").unwrap();
    store.upsert_subscriber(Subscriber::new(a1, DigestStrategy::TopN(10), NOW));
    store.upsert_subscriber(Subscriber::new(a2.clone(), DigestStrategy::TopN(20), NOW));
    assert_eq!(store.get_all_subscribers().len(), 1);
    assert_eq!(
        store.get_subscriber_by_email(&a2).unwrap().strategy,
        DigestStrategy::TopN(20)
    );
}

#[test]
fn pending_upsert_overwrites_previous_request() {
    let mut store = Store::new();
    let addr = EmailAddr::parse("p@example.com").unwrap();
    let p1 = hndigest::types::PendingSubscription::new(addr.clone(), DigestStrategy::TopN(10), NOW);
    let first_token = p1.token.as_str().to_string();
    store.upsert_pending_subscription(p1);
    let p2 = hndigest::types::PendingSubscription::new(
        addr.clone(),
        DigestStrategy::TopN(20),
        NOW + 60,
    );
    store.upsert_pending_subscription(p2);
    let got = store.get_pending_subscription(&addr).unwrap();
    assert_eq!(got.strategy, DigestStrategy::TopN(20));
    assert_ne!(got.token.as_str(), first_token);
}

#[test]
fn delete_pending_subscription_removes_record() {
    let mut store = Store::new();
    let addr = EmailAddr::parse("p@example.com").unwrap();
    let p = hndigest::types::PendingSubscription::new(addr.clone(), DigestStrategy::TopN(10), NOW);
    store.upsert_pending_subscription(p);
    store.delete_pending_subscription(&addr);
    assert!(store.get_pending_subscription(&addr).is_none());
}

#[test]
fn subscriber_exists_tracks_upserts() {
    let mut store = Store::new();
    let addr = EmailAddr::parse("here@example.com").unwrap();
    assert!(!store.subscriber_exists(&addr));
    store.upsert_subscriber(Subscriber::new(addr.clone(), DigestStrategy::TopN(10), NOW));
    assert!(store.subscriber_exists(&addr));
}

#[test]
fn snapshot_fetch_params_window() {
    let (top, points, since) = snapshot_fetch_params(NOW);
    assert_eq!(top, 100);
    assert_eq!(points, 100);
    assert_eq!(since, NOW - 2 * 86400);
}
