use hndigest::strategies::DigestStrategy;
use hndigest::types::Post;

fn make_post(id: &str, points: i32) -> Post {
    Post {
        object_id: id.to_string(),
        title: format!("Post {}", id),
        url: None,
        points,
        created_at: "2024-01-01T00:00:00Z".to_string(),
    }
}

#[test]
fn test_top_n_roundtrip() {
    for &n in &[10usize, 20, 50] {
        let strategy = DigestStrategy::TopN(n);
        let serialized = strategy.to_string();
        let deserialized: DigestStrategy = serialized.parse().unwrap();
        assert_eq!(strategy, deserialized);
    }
}

#[test]
fn test_point_threshold_roundtrip() {
    for &threshold in &[500i32, 250, 100] {
        let strategy = DigestStrategy::OverPointThreshold(threshold);
        let serialized = strategy.to_string();
        let deserialized: DigestStrategy = serialized.parse().unwrap();
        assert_eq!(strategy, deserialized);
    }
}

#[test]
fn test_invalid_top_n_value() {
    let result: Result<DigestStrategy, _> = "TOP_N#999".parse();
    assert!(result.is_err());
    let err = result.unwrap_err().message();
    assert!(err.contains("Invalid TOP_N value"));
}

#[test]
fn test_invalid_point_threshold_value() {
    let result: Result<DigestStrategy, _> = "POINT_THRESHOLD#999".parse();
    assert!(result.is_err());
    let err = result.unwrap_err().message();
    assert!(err.contains("Invalid POINT_THRESHOLD value"));
}

#[test]
fn test_invalid_format() {
    let result: Result<DigestStrategy, _> = "INVALID#10".parse();
    assert!(result.is_err());
    let err = result.unwrap_err().message();
    assert!(err.contains("Invalid strategy format"));
}

#[test]
fn test_display_format() {
    assert_eq!(DigestStrategy::TopN(10).to_string(), "TOP_N#10");
    assert_eq!(
        DigestStrategy::OverPointThreshold(500).to_string(),
        "POINT_THRESHOLD#500"
    );
}

#[test]
fn test_all_strategies() {
    let all = DigestStrategy::all();
    assert_eq!(all.len(), 6);

    for &n in &[10usize, 20, 50] {
        assert!(all.contains(&DigestStrategy::TopN(n)));
    }
    for &t in &[500i32, 250, 100] {
        assert!(all.contains(&DigestStrategy::OverPointThreshold(t)));
    }
}

#[test]
fn test_max_top_n() {
    assert_eq!(DigestStrategy::max_top_n(), 50);
}

#[test]
fn test_min_point_threshold() {
    assert_eq!(DigestStrategy::min_point_threshold(), 100);
}

#[test]
fn top_n_select_returns_at_most_n_posts() {
    let posts: Vec<Post> = (0..20)
        .map(|i| make_post(&i.to_string(), i as i32))
        .collect();
    let selected = DigestStrategy::TopN(5).select(&posts);
    assert_eq!(selected.len(), 5);
}

#[test]
fn top_n_select_fewer_than_n_returns_all() {
    let posts = vec![make_post("a", 100), make_post("b", 200)];
    let selected = DigestStrategy::TopN(10).select(&posts);
    assert_eq!(selected.len(), 2);
}

#[test]
fn top_n_select_preserves_input_order() {
    // select() takes a prefix, so it keeps whatever order was passed in;
    // callers are responsible for sorting beforehand.
    let posts = vec![
        make_post("a", 300),
        make_post("b", 100),
        make_post("c", 200),
    ];
    let selected = DigestStrategy::TopN(2).select(&posts);
    assert_eq!(selected[0].object_id, "a");
    assert_eq!(selected[1].object_id, "b");
}

#[test]
fn over_point_threshold_filters_below_threshold() {
    let posts = vec![make_post("a", 500), make_post("b", 250), make_post("c", 99)];
    let selected = DigestStrategy::OverPointThreshold(250).select(&posts);
    assert_eq!(selected.len(), 2);
    assert!(selected.iter().all(|p| p.points >= 250));
}

#[test]
fn over_point_threshold_includes_exact_threshold() {
    let posts = vec![make_post("a", 100)];
    let selected = DigestStrategy::OverPointThreshold(100).select(&posts);
    assert_eq!(selected.len(), 1);
}

#[test]
fn over_point_threshold_empty_when_none_qualify() {
    let posts = vec![make_post("a", 50)];
    let selected = DigestStrategy::OverPointThreshold(100).select(&posts);
    assert!(selected.is_empty());
}

#[test]
fn description_is_human_readable() {
    assert!(DigestStrategy::TopN(10).description().contains("10"));
    assert!(
        DigestStrategy::OverPointThreshold(500)
            .description()
            .contains("500")
    );
}

#[test]
fn description_exact_text() {
    assert_eq!(
        DigestStrategy::TopN(20).description(),
        "Top 20 stories by points"
    );
    assert_eq!(
        DigestStrategy::OverPointThreshold(250).description(),
        "All stories with 250+ points"
    );
}
