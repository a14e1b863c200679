use memoir::cluster::{
    capitalize, dominant_domain, extract_domains, extract_label, find_clusters, host_from_url,
    score_session, scored_by_embeddings, split_sessions, title_overlap, tokenize,
    PageForClustering,
};
use memoir::score::Score;
use memoir::time::{from_unix, Timestamp};

fn make_page(url: &str, title: &str, mins_from_epoch: i64) -> PageForClustering {
    PageForClustering {
        url: url.to_string(),
        title: title.to_string(),
        visited_at: from_unix(mins_from_epoch * 60, 0),
        embedding: None,
    }
}

fn title_overlap_score(pages: &Vec<PageForClustering>) -> f32 {
    let (shared, total) = title_overlap(pages);
    if total == 0 {
        0.0
    } else {
        shared as f32 / total as f32
    }
}

#[test]
fn session_gap_splits_correctly() {
    let pages = vec![
        make_page("https://a.com", "Rust async", 0),
        make_page("https://b.com", "Rust futures", 10),
        make_page("https://c.com", "Rust tokio", 20),
        // 60-minute gap
        make_page("https://d.com", "3D printing guide", 80),
        make_page("https://e.com", "3D printing slicer", 90),
        make_page("https://f.com", "3D printing materials", 100),
    ];
    let sessions = split_sessions(pages);
    assert_eq!(sessions.len(), 2);
    assert_eq!(sessions[0].len(), 3);
    assert_eq!(sessions[1].len(), 3);
}

#[test]
fn title_overlap_score_high_for_related_titles() {
    let pages = vec![
        make_page("https://a.com", "Rust async programming", 0),
        make_page("https://b.com", "Rust async runtime", 5),
        make_page("https://c.com", "Async Rust tutorial", 10),
    ];
    let score = title_overlap_score(&pages);
    assert!(score >= 0.4, "score was {score}");
}

#[test]
fn title_overlap_score_low_for_unrelated_titles() {
    let pages = vec![
        make_page("https://a.com", "Pizza recipe Italian", 0),
        make_page("https://b.com", "Rust programming language", 5),
        make_page("https://c.com", "Guitar chord theory", 10),
    ];
    let score = title_overlap_score(&pages);
    assert!(score < 0.3, "score was {score}");
}

#[test]
fn label_reflects_shared_words() {
    let pages = vec![
        make_page("https://a.com", "Rust async programming guide", 0),
        make_page("https://b.com", "Rust async runtime tutorial", 5),
        make_page("https://c.com", "Async Rust programming", 10),
    ];
    let label = extract_label(&pages);
    assert!(
        label.to_lowercase().contains("rust") || label.to_lowercase().contains("async"),
        "label was: {label}"
    );
    assert_eq!(label, "Async / Rust / Programming");
}

#[test]
fn clusters_filtered_by_min_score() {
    let pages = vec![
        make_page("https://a.com", "Pizza recipe", 0),
        make_page("https://b.com", "Rust futures", 5),
        make_page("https://c.com", "Guitar theory", 10),
    ];
    let sessions = split_sessions(pages);
    let scores: Vec<Score> = sessions
        .iter()
        .map(|s| Score { bits: title_overlap_score(s).to_bits() })
        .collect();
    let clusters = find_clusters(sessions, &scores, &Vec::new());
    assert!(
        clusters.is_empty(),
        "unrelated pages should not form a cluster"
    );
}

fn session(host: &str, start: i64) -> Vec<PageForClustering> {
    (0..3)
        .map(|i| make_page(&format!("https://{host}/{i}"), "Rust async", start + i))
        .collect()
}

#[test]
fn clusters_come_with_the_best_first_and_without_the_ignored() {
    let sessions = vec![session("a.com", 0), session("b.com", 100), session("c.com", 200)];
    let score = |f: f32| Score { bits: f.to_bits() };
    let scores = vec![score(0.5), score(0.9), score(0.95)];
    let clusters = find_clusters(sessions, &scores, &vec!["c.com".to_string()]);
    let hosts: Vec<&str> = clusters.iter().map(|c| c.dominant_domain.as_str()).collect();
    assert_eq!(hosts, vec!["b.com", "a.com"]);
    assert_eq!(clusters[0].started_at, "1970-01-01T01:40:00");
    assert_eq!(clusters[0].ended_at, "1970-01-01T01:42:00");
    assert_eq!(clusters[0].duration_mins, 2);
    assert_eq!(clusters[0].pages[2].url, "https://b.com/2");
    assert_eq!(clusters[0].label, "Async / Rust");
}

#[test]
fn short_sessions_and_scores_that_are_no_number_are_left_out() {
    let mut short = session("a.com", 0);
    short.pop();
    let sessions = vec![short, session("b.com", 100)];
    let scores = vec![Score { bits: 1f32.to_bits() }, Score { bits: f32::NAN.to_bits() }];
    assert!(find_clusters(sessions, &scores, &Vec::new()).is_empty());
}

#[test]
fn a_pause_of_half_an_hour_does_not_end_a_session() {
    let at = |secs: i64| PageForClustering {
        url: String::new(),
        title: String::new(),
        visited_at: from_unix(secs, 0),
        embedding: None,
    };
    assert_eq!(split_sessions(vec![at(0), at(30 * 60 + 59)]).len(), 1);
    assert_eq!(split_sessions(vec![at(0), at(31 * 60)]).len(), 2);
    assert_eq!(split_sessions(vec![at(31 * 60), at(0)])[0][0].visited_at.secs, 0);
    assert!(split_sessions(Vec::new()).is_empty());
}

#[test]
fn words_are_told_from_stop_words_and_short_ones() {
    assert_eq!(tokenize("The Rust-lang Book: go, ÄÖ x2y"), vec!["rust", "lang", "book", "äö", "x2y"]);
}

#[test]
fn words_are_capitalised() {
    assert_eq!(capitalize("rust"), "Rust");
    assert_eq!(capitalize("ßa"), "SSa");
    assert_eq!(capitalize(""), "");
}

#[test]
fn hosts_are_shown_without_www() {
    assert_eq!(host_from_url("https://www.a.com:80/x"), Some("a.com"));
    assert_eq!(host_from_url("http://b.com?x"), Some("b.com"));
    assert_eq!(host_from_url("b.com"), None);
}

#[test]
fn the_most_frequent_host_dominates() {
    let pages = vec![
        make_page("https://a.com/1", "x", 0),
        make_page("https://b.com/1", "x", 1),
        make_page("https://www.b.com/2", "x", 2),
        make_page("about:blank", "x", 3),
    ];
    assert_eq!(dominant_domain(&pages), "b.com");
    assert_eq!(extract_domains(&pages), vec!["a.com", "b.com"]);
    assert_eq!(extract_label(&pages), "b.com");
    assert_eq!(extract_label(&vec![make_page("about:blank", "x", 0)]), "Browsing session");
}

#[test]
fn at_most_five_hosts_are_named() {
    let pages: Vec<PageForClustering> =
        (0..7).map(|i| make_page(&format!("https://h{i}.com"), "t", i)).collect();
    assert_eq!(extract_domains(&pages), vec!["h0.com", "h1.com", "h2.com", "h3.com", "h4.com"]);
}

#[test]
fn two_embeddings_decide_how_a_session_is_scored() {
    let mut pages = session("a.com", 0);
    pages[0].embedding = Some(vec![0; 4]);
    assert!(!scored_by_embeddings(&pages));
    pages[2].embedding = Some(vec![0; 4]);
    assert!(scored_by_embeddings(&pages));
}

#[test]
fn no_cluster_is_made_of_no_pages() {
    assert!(score_session(Vec::new(), Score { bits: 0 }).is_none());
}

#[test]
fn times_are_written_as_they_are() {
    let t = Timestamp { secs: 86_399, nanos: 0 };
    assert_eq!(t.to_text(), "1970-01-01 23:59:59");
}
