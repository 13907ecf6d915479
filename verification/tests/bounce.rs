use hndigest::bounce::{
    handle_notification, BounceNotification, BouncedRecipient, ComplaintNotification,
    ComplainedRecipient, SesNotification,
};
use hndigest::email::EmailAddr;
use hndigest::store::Store;
use hndigest::strategies::DigestStrategy;
use hndigest::types::Subscriber;

const NOW: i64 = 1_700_000_000;

fn store_with(emails: &[&str]) -> Store {
    let mut store = Store::new();
    for e in emails {
        let addr = EmailAddr::parse(e).unwrap();
        store.upsert_subscriber(Subscriber::new(addr, DigestStrategy::TopN(10), NOW));
    }
    store
}

fn has_subscriber(store: &Store, e: &str) -> bool {
    store
        .get_subscriber_by_email(&EmailAddr::parse(e).unwrap())
        .is_some()
}

fn permanent_bounce(emails: &[&str]) -> SesNotification {
    SesNotification {
        event_type: "Bounce".to_string(),
        bounce: Some(BounceNotification {
            bounce_type: "Permanent".to_string(),
            bounced_recipients: emails
                .iter()
                .map(|e| BouncedRecipient {
                    email_address: e.to_string(),
                })
                .collect(),
        }),
        complaint: None,
    }
}

fn transient_bounce(emails: &[&str]) -> SesNotification {
    SesNotification {
        event_type: "Bounce".to_string(),
        bounce: Some(BounceNotification {
            bounce_type: "Transient".to_string(),
            bounced_recipients: emails
                .iter()
                .map(|e| BouncedRecipient {
                    email_address: e.to_string(),
                })
                .collect(),
        }),
        complaint: None,
    }
}

fn complaint(emails: &[&str]) -> SesNotification {
    SesNotification {
        event_type: "Complaint".to_string(),
        bounce: None,
        complaint: Some(ComplaintNotification {
            complained_recipients: emails
                .iter()
                .map(|e| ComplainedRecipient {
                    email_address: e.to_string(),
                })
                .collect(),
        }),
    }
}

#[test]
fn permanent_bounce_removes_subscriber() {
    let mut store = store_with(&["bounce@example.com"]);
    handle_notification(&permanent_bounce(&["bounce@example.com"]), &mut store).unwrap();
    assert!(!has_subscriber(&store, "bounce@example.com"));
}

#[test]
fn permanent_bounce_multiple_recipients_all_removed() {
    let mut store = store_with(&["a@example.com", "b@example.com"]);
    handle_notification(
        &permanent_bounce(&["a@example.com", "b@example.com"]),
        &mut store,
    )
    .unwrap();
    assert_eq!(store.get_all_subscribers().len(), 0);
}

#[test]
fn permanent_bounce_leaves_unlisted_subscriber_untouched() {
    let mut store = store_with(&["a@example.com", "b@example.com", "c@example.com"]);
    handle_notification(
        &permanent_bounce(&["a@example.com", "b@example.com"]),
        &mut store,
    )
    .unwrap();
    assert!(!has_subscriber(&store, "a@example.com"));
    assert!(!has_subscriber(&store, "b@example.com"));
    assert!(has_subscriber(&store, "c@example.com"));
}

#[test]
fn transient_bounce_does_not_remove_subscriber() {
    let mut store = store_with(&["trans@example.com"]);
    handle_notification(&transient_bounce(&["trans@example.com"]), &mut store).unwrap();
    assert!(has_subscriber(&store, "trans@example.com"));
}

#[test]
fn complaint_removes_subscriber() {
    let mut store = store_with(&["spam@example.com"]);
    handle_notification(&complaint(&["spam@example.com"]), &mut store).unwrap();
    assert!(!has_subscriber(&store, "spam@example.com"));
}

#[test]
fn invalid_email_in_notification_is_skipped() {
    let mut store = store_with(&["good@example.com"]);
    let notification = SesNotification {
        event_type: "Bounce".to_string(),
        bounce: Some(BounceNotification {
            bounce_type: "Permanent".to_string(),
            bounced_recipients: vec![BouncedRecipient {
                email_address: "not-an-email".to_string(),
            }],
        }),
        complaint: None,
    };
    handle_notification(&notification, &mut store).unwrap();
    assert!(has_subscriber(&store, "good@example.com"));
}

#[test]
fn unknown_notification_type_is_ignored() {
    let mut store = store_with(&["x@example.com"]);
    let notification = SesNotification {
        event_type: "Delivery".to_string(),
        bounce: None,
        complaint: None,
    };
    handle_notification(&notification, &mut store).unwrap();
    assert!(has_subscriber(&store, "x@example.com"));
}

#[test]
fn bounce_without_payload_is_hard_error() {
    let mut store = store_with(&["x@example.com"]);
    let notification = SesNotification {
        event_type: "Bounce".to_string(),
        bounce: None,
        complaint: None,
    };
    let r = handle_notification(&notification, &mut store);
    assert!(r.is_err());
    assert!(r.unwrap_err().message().contains("missing bounce field"));
    assert!(has_subscriber(&store, "x@example.com"));
}

#[test]
fn complaint_without_payload_is_hard_error() {
    let mut store = store_with(&["x@example.com"]);
    let notification = SesNotification {
        event_type: "Complaint".to_string(),
        bounce: None,
        complaint: None,
    };
    let r = handle_notification(&notification, &mut store);
    assert!(r.is_err());
    assert!(r.unwrap_err().message().contains("missing complaint field"));
}

#[test]
fn invalid_email_does_not_abort_rest_of_event() {
    let mut store = store_with(&["ok@example.com"]);
    handle_notification(
        &permanent_bounce(&["not-an-email", "ok@example.com"]),
        &mut store,
    )
    .unwrap();
    assert!(!has_subscriber(&store, "ok@example.com"));
}
