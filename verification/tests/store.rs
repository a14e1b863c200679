use memoir::index::query::Stats;
use memoir::index::search::SearchResult;
use memoir::index::store::{ExportPage, FetchStatus, FullExport, IndexStore};
use memoir::index::vectors::{
    bytes_to_vec, comparable, embed_to_bytes, rank_vectors, read_visit_time, VectorResult,
};
use memoir::index::schema::{orphaned_files, rebuilds, side_paths, text_table, TextTable};
use memoir::json::Json;
use memoir::score::{Number, Score};
use rusqlite::Connection;

const NOW: &str = "2026-05-01 12:00:00";

fn test_store() -> IndexStore {
    IndexStore::empty()
}

fn strings(list: &[&str]) -> Vec<String> {
    list.iter().map(|s| s.to_string()).collect()
}

/// The pages whose words a query matches, found by a full-text table over the words of the index.
fn by_words(store: &IndexStore, query: &str, limit: u32) -> Vec<SearchResult> {
    let conn = Connection::open_in_memory().unwrap();
    conn.execute_batch("CREATE VIRTUAL TABLE pages_fts USING fts5(title, body)").unwrap();
    for w in &store.words {
        conn.execute(
            "INSERT INTO pages_fts(rowid, title, body) VALUES(?1, ?2, ?3)",
            (w.id, &w.title, &w.body),
        )
        .unwrap();
    }
    let mut stmt = conn
        .prepare(
            "SELECT rowid, snippet(pages_fts, 1, '<b>', '</b>', '...', 20), bm25(pages_fts)
             FROM pages_fts WHERE pages_fts MATCH ?1 ORDER BY bm25(pages_fts) LIMIT ?2",
        )
        .unwrap();
    let hits = stmt
        .query_map((query, limit), |r| {
            Ok((r.get::<_, i64>(0)?, r.get::<_, String>(1)?, r.get::<_, f64>(2)?))
        })
        .unwrap();
    hits.map(|h| {
        let (id, snippet, rank) = h.unwrap();
        let page = store.pages.iter().find(|p| p.id == id).unwrap();
        SearchResult {
            url: page.url.clone(),
            title: page.title.clone(),
            snippet,
            rank: Number { bits: rank.to_bits() },
            first_visit_at: page.first_visit_at.clone(),
            last_visit_at: page.last_visit_at.clone(),
            starred: page.starred,
        }
    })
    .collect()
}

fn search(store: &IndexStore, query: &str, limit: u32) -> Vec<SearchResult> {
    store.search(by_words(store, query, limit), query, limit)
}

#[test]
fn upsert_and_search() {
    let mut store = test_store();
    store.upsert_page(
        "https://example.com",
        "Example Page",
        "This page is about Rust programming language features.",
        NOW,
    );
    let results = search(&store, "rust", 10);
    assert_eq!(results.len(), 1);
    assert_eq!(results[0].url, "https://example.com");
}

#[test]
fn store_search_returns_empty_for_no_match() {
    let mut store = test_store();
    store.upsert_page("https://example.com", "Hello", "Hello world content", NOW);
    let results = search(&store, "zzznomatch999", 10);
    assert!(results.is_empty());
}

#[test]
fn upsert_updates_existing_page() {
    let mut store = test_store();
    store.upsert_page("https://example.com", "Old Title", "old content about nothing", NOW);
    store.upsert_page("https://example.com", "New Title", "new content about Rust async", NOW);
    let old = search(&store, "nothing", 10);
    assert!(old.is_empty(), "old content should be gone from index");
    let new = search(&store, "async", 10);
    assert_eq!(new.len(), 1);
    assert_eq!(new[0].title, "New Title");
}

#[test]
fn urls_needing_fetch_returns_pending() {
    let mut store = test_store();
    store.register_urls(&strings(&["https://a.com", "https://b.com", "https://c.com"]));
    store.mark_status("https://b.com", FetchStatus::AuthWall);
    let pending = store.urls_needing_fetch(10);
    assert_eq!(pending.len(), 2);
    assert!(!pending.contains(&"https://b.com".to_string()));
}

fn bits(v: &[f32]) -> Vec<Score> {
    v.iter().map(|f| Score { bits: f.to_bits() }).collect()
}

#[test]
fn embed_roundtrip() {
    let orig = vec![1.0f32, -0.5, 3.14];
    let bytes = embed_to_bytes(&bits(&orig));
    let back = bytes_to_vec(&bytes);
    for (a, b) in orig.iter().zip(&back) {
        assert!((a - f32::from_bits(b.bits)).abs() < 1e-7);
    }
    assert_eq!(bytes, orig.iter().flat_map(|f| f.to_le_bytes()).collect::<Vec<u8>>());
    assert!(comparable(&bytes, 3));
    assert!(!comparable(&bytes, 4));
    assert_eq!(bytes_to_vec(&vec![1, 2, 3]).len(), 0);
}

fn cosine(a: &[f32], b: &[Score]) -> f32 {
    let b: Vec<f32> = b.iter().map(|s| f32::from_bits(s.bits)).collect();
    let dot: f32 = a.iter().zip(&b).map(|(x, y)| x * y).sum();
    let na = a.iter().map(|x| x * x).sum::<f32>().sqrt();
    let nb = b.iter().map(|x| x * x).sum::<f32>().sqrt();
    if na == 0.0 || nb == 0.0 {
        0.0
    } else {
        dot / (na * nb)
    }
}

fn vector_search(store: &IndexStore, query: &[f32], limit: u32, least: f32) -> Vec<VectorResult> {
    let candidates = store
        .pages
        .iter()
        .filter_map(|p| {
            let bytes = p.embedding.as_ref()?;
            if !comparable(bytes, query.len()) {
                return None;
            }
            Some(VectorResult {
                url: p.url.clone(),
                title: p.title.clone(),
                score: Score { bits: cosine(query, &bytes_to_vec(bytes)).to_bits() },
            })
        })
        .collect();
    rank_vectors(candidates, limit, Score { bits: least.to_bits() })
}

#[test]
fn vector_search_returns_best_match() {
    let mut store = test_store();
    store.upsert_page("https://rust.org", "Rust", "systems programming", NOW);
    store.upsert_page("https://python.org", "Python", "dynamic scripting", NOW);

    let rust_vec = vec![1.0f32, 0.0, 0.0, 0.0];
    let python_vec = vec![0.0f32, 1.0, 0.0, 0.0];
    store.store_embedding("https://rust.org", &embed_to_bytes(&bits(&rust_vec)));
    store.store_embedding("https://python.org", &embed_to_bytes(&bits(&python_vec)));

    let query = vec![1.0f32, 0.0, 0.0, 0.0];
    let results = vector_search(&store, &query, 5, 0.0);
    assert_eq!(results.len(), 2);
    assert_eq!(results[0].url, "https://rust.org");
    let score = |i: usize| f32::from_bits(results[i].score.bits);
    assert!((score(0) - 1.0).abs() < 1e-6);
    assert!(score(0) > score(1));
}

#[test]
fn vector_search_min_score_filters_low_similarity() {
    let mut store = test_store();
    store.upsert_page("https://a.com", "A", "content a", NOW);
    store.upsert_page("https://b.com", "B", "content b", NOW);

    let a_vec = vec![1.0f32, 0.0];
    let b_vec = vec![0.0f32, 1.0];
    store.store_embedding("https://a.com", &embed_to_bytes(&bits(&a_vec)));
    store.store_embedding("https://b.com", &embed_to_bytes(&bits(&b_vec)));

    let query = vec![1.0f32, 0.0];
    let results = vector_search(&store, &query, 5, 0.5);
    assert_eq!(
        results.len(),
        1,
        "only a.com should clear the 0.5 threshold"
    );
    assert_eq!(results[0].url, "https://a.com");
}

#[test]
fn pages_needing_embedding_returns_fetched_without_embedding() {
    let mut store = test_store();
    store.upsert_page("https://fetched.com", "F", "content", NOW);
    store.register_urls(&strings(&["https://pending.com"]));

    let pending = store.pages_needing_embedding(10);
    assert_eq!(pending.len(), 1);
    assert_eq!(pending[0].0, "https://fetched.com");

    store.store_embedding("https://fetched.com", &embed_to_bytes(&bits(&[1.0, 0.0])));
    let pending2 = store.pages_needing_embedding(10);
    assert!(pending2.is_empty());
}

#[test]
fn vector_scores_are_ordered_and_limited() {
    let hit = |url: &str, score: f32| VectorResult {
        url: url.into(),
        title: String::new(),
        score: Score { bits: score.to_bits() },
    };
    let list = || {
        vec![
            hit("low", 0.1),
            hit("none", f32::NAN),
            hit("neg", -0.5),
            hit("zero", -0.0),
            hit("high", 0.9),
            hit("again", 0.9),
        ]
    };
    let urls = |limit, least: f32| -> Vec<String> {
        rank_vectors(list(), limit, Score { bits: least.to_bits() })
            .into_iter()
            .map(|v| v.url)
            .collect()
    };
    assert_eq!(urls(10, -1.0), strings(&["high", "again", "low", "zero", "neg"]));
    assert_eq!(urls(2, 0.0), strings(&["high", "again"]));
    assert_eq!(urls(10, 0.0), strings(&["high", "again", "low", "zero"]));
}

fn visit(store: &mut IndexStore, url: &str, at: &str) {
    store.register_visits(&vec![(url.to_string(), at.to_string())]);
}

#[test]
fn a_later_visit_has_a_page_fetched_again() {
    let mut store = test_store();
    visit(&mut store, "https://a.com", "2026-01-02 00:00:00");
    assert_eq!(store.pages[0].fetch_status, FetchStatus::Pending);
    assert_eq!(store.pages[0].first_visit_at.as_deref(), Some("2026-01-02 00:00:00"));
    store.upsert_page("https://a.com", "T", "B", NOW);
    visit(&mut store, "https://a.com", "2026-01-01 00:00:00");
    assert_eq!(store.pages[0].fetch_status, FetchStatus::Fetched);
    assert_eq!(store.pages[0].last_visit_at.as_deref(), Some("2026-01-02 00:00:00"));
    visit(&mut store, "https://a.com", "2026-01-03 00:00:00");
    assert_eq!(store.pages[0].fetch_status, FetchStatus::Pending);
    assert_eq!(store.pages[0].first_visit_at.as_deref(), Some("2026-01-02 00:00:00"));
    assert_eq!(store.pages[0].last_visit_at.as_deref(), Some("2026-01-03 00:00:00"));
}

#[test]
fn skipped_pages_stay_skipped_when_visited() {
    let mut store = test_store();
    visit(&mut store, "https://a.com/x.pdf", "2026-01-01 00:00:00");
    store.mark_status("https://a.com/x.pdf", FetchStatus::Skip);
    visit(&mut store, "https://a.com/x.pdf", "2026-01-09 00:00:00");
    assert_eq!(store.pages[0].fetch_status, FetchStatus::Skip);
    assert_eq!(store.pages[0].last_visit_at.as_deref(), Some("2026-01-09 00:00:00"));
}

#[test]
fn banned_hosts_stay_out() {
    let mut store = test_store();
    store.upsert_page("https://m.bad.com/x", "T", "B", NOW);
    store.upsert_page("https://good.com/bad.com", "T", "B", NOW);
    store.upsert_page("https://good.com/", "T", "B", NOW);
    assert_eq!(store.ban_host("bad.com"), 2);
    assert_eq!(store.pages.len(), 1);
    assert_eq!(store.words.len(), 1);
    visit(&mut store, "https://www.bad.com/y", "2026-01-01 00:00:00");
    assert_eq!(store.pages.len(), 1);
    assert_eq!(store.ban_host("bad.com"), 0);
    assert_eq!(store.get_banned_hosts(), strings(&["bad.com"]));
}

#[test]
fn a_deleted_page_is_gone_with_its_words() {
    let mut store = test_store();
    store.upsert_page("https://a.com", "T", "unique", NOW);
    store.upsert_page("https://b.com", "T", "other", NOW);
    store.delete_page("https://a.com");
    store.delete_page("https://missing.com");
    assert_eq!(store.pages.len(), 1);
    assert!(search(&store, "unique", 5).is_empty());
    assert_eq!(search(&store, "other", 5).len(), 1);
    store.upsert_page("https://c.com", "T", "x", NOW);
    assert_eq!(store.pages[1].id, 3);
}

#[test]
fn failures_are_counted_until_a_page_is_given_up() {
    let mut store = test_store();
    store.register_urls(&strings(&["https://a.com"]));
    store.record_fetch_error("https://a.com", 3);
    store.record_fetch_error("https://a.com", 3);
    assert_eq!(store.pages[0].fetch_status, FetchStatus::Pending);
    store.record_fetch_error("https://a.com", 3);
    assert_eq!(store.pages[0].fetch_status, FetchStatus::Error);
    assert_eq!(store.pages[0].fetch_attempts, 3);
}

#[test]
fn bookmarks_star_and_requeue() {
    let mut store = test_store();
    store.upsert_page("https://a.com", "Kept", "B", NOW);
    store.bookmark("https://a.com", "", "2026-06-01");
    assert!(store.pages[0].starred);
    assert_eq!(store.pages[0].title, "Kept");
    assert_eq!(store.pages[0].fetch_status, FetchStatus::Pending);
    assert_eq!(store.pages[0].first_visit_at.as_deref(), Some("2026-06-01"));
    store.bookmark("https://a.com", "Named", "2026-06-02");
    assert_eq!(store.pages[0].title, "Named");
    assert_eq!(store.pages[0].first_visit_at.as_deref(), Some("2026-06-01"));
    let items = vec![
        ("https://b.com".to_string(), "B".to_string()),
        ("javascript:x".to_string(), "J".to_string()),
        ("http://c.com".to_string(), String::new()),
    ];
    assert_eq!(store.import_starred(&items, "2026-06-03"), 2);
    let starred: Vec<String> = store.get_starred(10).into_iter().map(|p| p.url).collect();
    assert_eq!(starred, strings(&["http://c.com", "https://b.com", "https://a.com"]));
    store.set_starred("https://b.com", false);
    assert_eq!(store.get_starred(1)[0].url, "http://c.com");
    assert_eq!(store.get_starred(10).len(), 2);
}

fn export_page(url: &str, body: &str, starred: bool, first: Option<&str>, last: Option<&str>) -> ExportPage {
    ExportPage {
        url: url.into(),
        title: format!("title of {url}"),
        body: body.into(),
        starred,
        first_visit_at: first.map(String::from),
        last_visit_at: last.map(String::from),
    }
}

#[test]
fn an_export_is_brought_in() {
    let mut store = test_store();
    visit(&mut store, "https://a.com", "2026-01-05");
    store.set_starred("https://a.com", true);
    let export = FullExport {
        version: 1,
        exported_at: NOW.into(),
        pages: vec![
            export_page("https://a.com", "alpha", false, Some("2020"), Some("2026-01-01")),
            export_page("https://b.com", "", false, None, None),
            export_page("file:///c", "gamma", true, None, None),
            export_page("https://d.com", "delta", true, Some("2021"), Some("2022")),
        ],
        ban_list: strings(&["x.com", "", "x.com"]),
    };
    assert_eq!(store.import_all(&export), (3, 2));
    assert_eq!(store.get_banned_hosts(), strings(&["x.com"]));
    let a = &store.pages[0];
    assert!(a.starred);
    assert_eq!(a.body, "alpha");
    assert_eq!(a.fetch_status, FetchStatus::Fetched);
    assert_eq!(a.first_visit_at.as_deref(), Some("2026-01-05"));
    assert_eq!(a.last_visit_at.as_deref(), Some("2026-01-05"));
    assert_eq!(store.pages.len(), 3);
    assert_eq!(store.words.len(), 2);
    assert_eq!(search(&store, "delta", 5).len(), 1);
    store.import_all(&export);
    assert_eq!(store.pages.len(), 3);
    assert_eq!(store.words.len(), 3);
}

#[test]
fn an_export_holds_the_fetched_pages_and_the_bans_in_order() {
    let mut store = test_store();
    store.upsert_page("https://a.com", "A", "a", NOW);
    visit(&mut store, "https://b.com", "2026-01-01");
    store.upsert_page("https://b.com", "B", "b", NOW);
    visit(&mut store, "https://c.com", "2026-02-01");
    store.upsert_page("https://c.com", "C", "c", NOW);
    visit(&mut store, "https://d.com", "2026-03-01");
    store.ban_host("zz.com");
    store.ban_host("aa.com");
    let export = store.export_all("now");
    let urls: Vec<&str> = export.pages.iter().map(|p| p.url.as_str()).collect();
    assert_eq!(urls, vec!["https://c.com", "https://b.com", "https://a.com"]);
    assert_eq!(export.ban_list, strings(&["aa.com", "zz.com"]));
    assert_eq!((export.version, export.exported_at.as_str()), (1, "now"));
    let mut again = test_store();
    again.import_all(&export);
    assert_eq!(again.export_all("now").pages.len(), 3);
}

#[test]
fn pages_are_listed_last_visited_first() {
    let mut store = test_store();
    store.register_urls(&strings(&["https://never.com"]));
    visit(&mut store, "https://old.com/Path", "2026-01-01");
    visit(&mut store, "https://new.com", "2026-02-01");
    store.upsert_page("https://new.com", "About PATHS", "b", NOW);
    let urls = |limit, offset, filter: Option<&str>| -> Vec<String> {
        store.list_pages(limit, offset, filter).into_iter().map(|p| p.url).collect()
    };
    assert_eq!(urls(10, 0, None), strings(&["https://new.com", "https://old.com/Path", "https://never.com"]));
    assert_eq!(urls(1, 1, None), strings(&["https://old.com/Path"]));
    assert_eq!(urls(10, 5, None).len(), 0);
    assert_eq!(urls(10, 0, Some("pAth")), strings(&["https://new.com", "https://old.com/Path"]));
    assert_eq!(urls(10, 0, Some("")).len(), 3);
    assert_eq!(urls(10, 0, Some("zzz")).len(), 0);
}

#[test]
fn the_size_of_the_index_is_counted() {
    let mut store = test_store();
    store.upsert_page("https://a.com", "A", "a", NOW);
    store.register_urls(&strings(&["https://b.com", "https://c.com", "https://d.com", "https://e.com"]));
    store.mark_status("https://c.com", FetchStatus::AuthWall);
    store.mark_status("https://d.com", FetchStatus::Skip);
    store.mark_status("https://e.com", FetchStatus::Error);
    store.store_embedding("https://a.com", &vec![0; 8]);
    store.store_favicon("a.com", "image/png", &vec![1], NOW);
    assert_eq!(
        store.stats(),
        Stats {
            total_pages: 5,
            fetched: 1,
            pending: 1,
            embedded: 1,
            auth_wall: 1,
            skipped: 1,
            favicons: 1,
        }
    );
}

#[test]
fn icons_are_kept_by_host() {
    let mut store = test_store();
    assert!(!store.has_favicon("a.com"));
    store.store_favicon("a.com", "image/png", &vec![1], NOW);
    store.store_favicon("b.com", "image/gif", &vec![2], NOW);
    store.store_favicon("a.com", "image/x-icon", &vec![3, 4], NOW);
    assert!(store.has_favicon("a.com"));
    assert_eq!(store.get_favicon("a.com"), Some(("image/x-icon".to_string(), vec![3, 4])));
    assert_eq!(store.get_favicon("b.com"), Some(("image/gif".to_string(), vec![2])));
    assert_eq!(store.get_favicon("c.com"), None);
}

#[test]
fn values_are_kept_by_key() {
    let mut store = test_store();
    assert_eq!(store.get_meta("k"), None);
    store.set_meta("k", "1");
    store.set_meta("l", "2");
    store.set_meta("k", "3");
    assert_eq!(store.get_meta("k").as_deref(), Some("3"));
    assert_eq!(store.get_meta("l").as_deref(), Some("2"));
}

#[test]
fn ignored_domains_come_and_go() {
    let mut store = test_store();
    store.add_cluster_ignored_domain("a.com");
    store.add_cluster_ignored_domain("b.com");
    store.add_cluster_ignored_domain("a.com");
    assert_eq!(store.get_cluster_ignored_domains(), strings(&["a.com", "b.com"]));
    store.remove_cluster_ignored_domain("a.com");
    assert_eq!(store.get_cluster_ignored_domains(), strings(&["b.com"]));
}

#[test]
fn a_page_is_shown_with_all_that_is_known() {
    let mut store = test_store();
    store.upsert_page("https://a.com", "A", "body", NOW);
    let page = store.get_page("https://a.com").unwrap();
    assert_eq!(page.text_at("title"), Some("A"));
    assert_eq!(page.text_at("fetch_status"), Some("fetched"));
    assert!(matches!(page.get("starred"), Some(Json::Bool(false))));
    assert!(matches!(page.get("last_visit_at"), Some(Json::Null)));
    assert!(store.get_page("https://b.com").is_none());
    assert_eq!(
        store.get_bodies(&strings(&["https://b.com", "https://a.com"])),
        vec![("https://a.com".to_string(), "body".to_string())]
    );
}

#[test]
fn searches_fall_back_to_urls() {
    let mut store = test_store();
    store.upsert_page("https://x.com/aerocano", "", "nothing here", NOW);
    store.upsert_page("https://y.com", "Coffee", "aerocano recipe", NOW);
    store.upsert_page("https://z.com/aerocano", "Zed", "aerocano too", NOW);
    let urls: Vec<String> = search(&store, "aerocano", 10).into_iter().map(|r| r.url).collect();
    assert_eq!(urls.len(), 3);
    assert_eq!(urls[2], "https://x.com/aerocano");
    let hit = search(&store, "aerocano", 10).pop().unwrap();
    assert_eq!(hit.title, "https://x.com/aerocano");
    assert_eq!(hit.snippet, "");
    assert_eq!(search(&store, "aerocano", 2).len(), 2);
    let found = store.fetch_by_urls(&strings(&["https://y.com", "https://nowhere.com"]));
    assert_eq!(found.len(), 1);
    assert_eq!(found[0].title, "Coffee");
}

#[test]
fn the_week_is_told_from_the_time_before() {
    let mut store = test_store();
    for (url, at) in [
        ("https://a.com/1", "2026-01-08"),
        ("https://a.com/2", "2026-01-09"),
        ("https://b.com/1", "2026-01-03"),
        ("https://b.com/2", "2026-01-02"),
        ("https://c.com/1", "2025-12-01"),
    ] {
        visit(&mut store, url, at);
        store.upsert_page(url, "T", &"x".repeat(400), NOW);
    }
    visit(&mut store, "https://d.com", "2026-01-09");
    let (week, prior) = store.weekly_pages("2026-01-07", "2026-01-01");
    let urls: Vec<&str> = week.iter().map(|w| w.url.as_str()).collect();
    assert_eq!(urls, vec!["https://a.com/2", "https://a.com/1"]);
    assert_eq!(week[0].host, "a.com");
    assert_eq!(week[0].snippet.len(), 300);
    assert_eq!(prior, vec![("b.com".to_string(), 2)]);
}

#[test]
fn sessions_are_read_in_the_order_of_time() {
    let mut store = test_store();
    visit(&mut store, "https://b.com", "2026-01-08 10:00:00");
    visit(&mut store, "https://a.com", "2026-01-08 09:00:00");
    visit(&mut store, "https://old.com", "2025-01-01 00:00:00");
    visit(&mut store, "https://odd.com", "2026-02-30 00:00:00");
    store.bookmark("https://c.com", "C", "2026-01-09T08:00:00.5+00:00");
    store.store_embedding("https://a.com", &vec![1, 2, 3, 4]);
    let pages = store.get_pages_for_clustering("2026-01-01 00:00:00");
    let urls: Vec<&str> = pages.iter().map(|p| p.url.as_str()).collect();
    assert_eq!(urls, vec!["https://a.com", "https://b.com", "https://c.com"]);
    assert_eq!(pages[0].embedding, Some(vec![1, 2, 3, 4]));
    assert_eq!(pages[2].visited_at.nanos, 500_000_000);
    assert_eq!(read_visit_time("2026-01-09T08:00:00Z").unwrap().to_text(), "2026-01-09 08:00:00");
    assert!(read_visit_time("soon").is_none());
}

#[test]
fn statuses_have_names() {
    for s in [
        FetchStatus::Pending,
        FetchStatus::Fetched,
        FetchStatus::AuthWall,
        FetchStatus::Skip,
        FetchStatus::Error,
    ] {
        assert_eq!(FetchStatus::from_name(s.as_str()), Some(s));
    }
    assert_eq!(FetchStatus::AuthWall.as_str(), "auth_wall");
    assert_eq!(FetchStatus::from_name("unknown"), None);
}

#[test]
fn the_index_is_opened_with_care() {
    assert_eq!(side_paths("/x/i.db"), strings(&["/x/i.db-wal", "/x/i.db-shm"]));
    assert!(orphaned_files("/x/i.db", true).is_empty());
    assert_eq!(orphaned_files("/x/i.db", false).len(), 2);
    assert_eq!(text_table(""), TextTable::Keep);
    assert_eq!(text_table("pages"), TextTable::Migrate);
    assert!(!rebuilds("ok"));
    assert!(rebuilds("row 3 missing"));
}

#[test]
fn leafing_shows_each_page_once() {
    let mut store = test_store();
    for i in 0..5 {
        store.register_visit(&format!("https://{i}.com"), &format!("2026-01-0{}", i + 1));
    }
    store.register_url("https://never.com");
    let urls = |offset: u32, limit: u32| -> Vec<String> {
        store.list_pages(limit, offset, None).into_iter().map(|p| p.url).collect()
    };
    let all = strings(&[
        "https://4.com",
        "https://3.com",
        "https://2.com",
        "https://1.com",
        "https://0.com",
        "https://never.com",
    ]);
    assert_eq!(urls(0, 50), all);
    assert_eq!([urls(0, 2), urls(2, 2), urls(4, 2)].concat(), all);
    assert!(urls(6, 2).is_empty());
}

#[test]
fn a_backup_is_the_same_again() {
    let mut store = test_store();
    store.upsert_page("https://a.com", "A", "text a", "t");
    store.upsert_page("https://b.com", "B", "", "t");
    store.register_visit("https://b.com", "2026-01-01");
    store.mark_status("https://b.com", memoir::index::store::FetchStatus::Fetched);
    store.set_starred("https://a.com", true);
    store.ban_host("z.com");
    store.ban_host("y.com");
    let export = store.export_all("now");
    let mut fresh = IndexStore::empty();
    assert_eq!(fresh.import_all(&export), (2, 2));
    let again = fresh.export_all("now");
    assert_eq!(format!("{:?}", again.pages), format!("{:?}", export.pages));
    assert_eq!(again.ban_list, strings(&["y.com", "z.com"]));
    assert_eq!(again.pages[0].url, "https://b.com");
}
