use hndigest::builder::build_digest;
use hndigest::date::Date;
use hndigest::digest::{filter_sent_posts, sort_posts_desc};
use hndigest::store::Store;
use hndigest::strategies::DigestStrategy;
use hndigest::types::Post;

fn make_post(id: &str, points: i32) -> Post {
    Post {
        object_id: id.to_string(),
        title: format!("Post {}", id),
        url: None,
        points,
        created_at: "2024-01-01T00:00:00Z".to_string(),
    }
}

#[test]
fn filter_sent_posts_no_yesterday_digest_returns_all() {
    let posts = vec![make_post("a", 100), make_post("b", 200)];
    let result = filter_sent_posts(&posts, None);
    assert_eq!(result.len(), 2);
}

#[test]
fn filter_sent_posts_removes_already_sent() {
    let posts = vec![
        make_post("a", 500),
        make_post("b", 200),
        make_post("c", 100),
    ];
    let yesterday = vec![make_post("a", 500)];
    let result = filter_sent_posts(&posts, Some(&yesterday));
    assert_eq!(result.len(), 2);
    assert!(result.iter().all(|p| p.object_id != "a"));
}

#[test]
fn filter_sent_posts_empty_yesterday_digest_returns_all() {
    let posts = vec![make_post("a", 100), make_post("b", 200)];
    let result = filter_sent_posts(&posts, Some(&[]));
    assert_eq!(result.len(), 2);
}

#[test]
fn filter_sent_posts_all_sent_returns_empty() {
    let posts = vec![make_post("a", 100)];
    let yesterday = vec![make_post("a", 100)];
    let result = filter_sent_posts(&posts, Some(&yesterday));
    assert!(result.is_empty());
}

#[test]
fn sort_is_descending_and_stable() {
    let posts = vec![
        make_post("a", 100),
        make_post("b", 300),
        make_post("c", 100),
        make_post("d", 300),
    ];
    let sorted = sort_posts_desc(posts);
    let ids: Vec<&str> = sorted.iter().map(|p| p.object_id.as_str()).collect();
    // descending by score, equal scores keep input order
    assert_eq!(ids, vec!["b", "d", "a", "c"]);
}

#[test]
fn build_digest_top_n_excludes_yesterday_and_sorts_by_points() {
    let date = Date { year: 2024, month: 6, day: 15 };
    let yesterday = date.prev_day();
    let strategy = DigestStrategy::TopN(10);

    // Post "a" was already sent yesterday
    let mut store = Store::new();
    store.save_digest(
        strategy.to_string().as_str(),
        &yesterday,
        &[make_post("a", 500)],
    );

    let posts = vec![
        make_post("a", 500),
        make_post("b", 200),
        make_post("c", 100),
    ];
    let result = build_digest(&mut store, strategy, &date, &posts).unwrap();

    // "a" filtered, the rest sorted by points descending
    assert_eq!(result.len(), 2);
    assert_eq!(result[0].object_id, "b");
    assert_eq!(result[1].object_id, "c");

    // Digest should be saved
    let saved = store
        .fetch_digest(strategy.to_string().as_str(), &date)
        .unwrap();
    assert_eq!(saved.len(), 2);
}

#[test]
fn build_digest_over_point_threshold_filters_correctly() {
    let date = Date { year: 2024, month: 6, day: 15 };
    let strategy = DigestStrategy::OverPointThreshold(250);
    let mut store = Store::new();

    let posts = vec![
        make_post("a", 500),
        make_post("b", 250),
        make_post("c", 100),
    ];
    let result = build_digest(&mut store, strategy, &date, &posts).unwrap();

    assert_eq!(result.len(), 2);
    assert!(result.iter().all(|p| p.points >= 250));
    assert!(result.iter().all(|p| p.object_id != "c"));
}

#[test]
fn build_digest_no_yesterday_digest_uses_all_posts() {
    let date = Date { year: 2024, month: 6, day: 15 };
    let strategy = DigestStrategy::TopN(10);
    let mut store = Store::new();

    let posts = vec![make_post("a", 500), make_post("b", 200)];
    let result = build_digest(&mut store, strategy, &date, &posts).unwrap();

    assert_eq!(result.len(), 2);
}

#[test]
fn top_n_two_after_excluding_prior() {
    // prior digest [a:500]; candidates [a:500, b:200, c:100]; TopN(2) => [b, c]
    let date = Date { year: 2024, month: 3, day: 2 };
    let strategy = DigestStrategy::TopN(2);
    let mut store = Store::new();
    store.save_digest(
        strategy.to_string().as_str(),
        &date.prev_day(),
        &[make_post("a", 500)],
    );
    let posts = vec![
        make_post("a", 500),
        make_post("b", 200),
        make_post("c", 100),
    ];
    let result = build_digest(&mut store, strategy, &date, &posts).unwrap();
    let ids: Vec<&str> = result.iter().map(|p| p.object_id.as_str()).collect();
    assert_eq!(ids, vec!["b", "c"]);
}

#[test]
fn threshold_two_hundred_keeps_a_and_b() {
    // no prior digest; candidates [a:500, b:200, c:100]; threshold 200 => {a, b}
    let date = Date { year: 2024, month: 3, day: 2 };
    let strategy = DigestStrategy::OverPointThreshold(200);
    let mut store = Store::new();
    let posts = vec![
        make_post("a", 500),
        make_post("b", 200),
        make_post("c", 100),
    ];
    let result = build_digest(&mut store, strategy, &date, &posts).unwrap();
    let ids: Vec<&str> = result.iter().map(|p| p.object_id.as_str()).collect();
    assert_eq!(ids, vec!["a", "b"]);
}

#[test]
fn empty_result_is_valid_output() {
    let date = Date { year: 2024, month: 1, day: 2 };
    let strategy = DigestStrategy::OverPointThreshold(500);
    let mut store = Store::new();
    let posts = vec![make_post("a", 10)];
    let result = build_digest(&mut store, strategy, &date, &posts).unwrap();
    assert!(result.is_empty());
    // the empty digest is still persisted
    assert_eq!(
        store
            .fetch_digest(strategy.to_string().as_str(), &date)
            .unwrap()
            .len(),
        0
    );
}
