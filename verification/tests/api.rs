use memoir::browser::orion::{OrionBrowser, OrionRow};
use memoir::browser::HistoryItem;
use memoir::index::search::SearchResult;
use memoir::index::store::IndexStore;
use memoir::rag::AskResponse;
use memoir::score::Number;
use memoir::server::answers::{ask_answer, no_sources};
use memoir::server::flow::{ask_step, AskAction, AskEvent, AskStage, Question};
use memoir::server::handlers::{
    filter_recent, log_entries, merge_results, recent_fetch_limit, search_line, sync_status,
};
use memoir::server::{default_limit, default_page_limit};
use memoir::session_log::{LogKind, SessionLog};
use memoir::time::Timestamp;
use rusqlite::Connection;

const NOW: &str = "2026-05-01 12:00:00";

fn seeded() -> IndexStore {
    let mut index = IndexStore::empty();
    index.upsert_page(
        "https://rust-lang.org",
        "The Rust Programming Language",
        "Rust is a systems programming language focused on safety, speed, and concurrency.",
        NOW,
    );
    index.upsert_page(
        "https://tokio.rs",
        "Tokio - Async Runtime for Rust",
        "Tokio is an asynchronous runtime for writing reliable network applications in Rust.",
        NOW,
    );
    index.upsert_page(
        "https://docs.rs/serde",
        "Serde - Serialization Framework",
        "Serde is a framework for serializing and deserializing Rust data structures efficiently.",
        NOW,
    );
    index
}

fn history() -> Vec<OrionRow> {
    let conn = Connection::open_in_memory().unwrap();
    conn.execute_batch(
        "CREATE TABLE history_items (
            ID INTEGER PRIMARY KEY AUTOINCREMENT,
            URL TEXT, TITLE TEXT, HOST TEXT,
            LAST_VISIT_TIME TIMESTAMP DEFAULT CURRENT_TIMESTAMP,
            VISIT_COUNT INTEGER, TYPED_COUNT INTEGER
        );
        INSERT INTO history_items (URL, TITLE, HOST, LAST_VISIT_TIME, VISIT_COUNT) VALUES
            ('https://example.com/page1', 'Page One',  'example.com',  '2026-04-30 10:00:00', 5),
            ('https://rust-lang.org',     'Rust',       'rust-lang.org','2026-04-30 09:30:00', 12),
            ('https://crates.io',         'crates.io',  'crates.io',    '2026-04-30 09:00:00', 8),
            ('https://docs.rs',           'Docs.rs',    'docs.rs',      '2026-04-29 22:00:00', 20),
            ('https://github.com',        'GitHub',     'github.com',   '2026-04-29 18:00:00', 50);",
    )
    .unwrap();
    let mut stmt = conn
        .prepare("SELECT ID, URL, TITLE, HOST, LAST_VISIT_TIME, VISIT_COUNT FROM history_items")
        .unwrap();
    let rows = stmt
        .query_map([], |r| {
            Ok(OrionRow {
                id: r.get(0)?,
                url: r.get(1)?,
                title: r.get(2)?,
                host: r.get(3)?,
                last_visit_time: r.get(4)?,
                visit_count: r.get(5)?,
            })
        })
        .unwrap();
    rows.map(|r| r.unwrap()).collect()
}

/// The full-text search of the seeded pages.
fn by_words(index: &IndexStore, query: &str, limit: u32) -> Vec<SearchResult> {
    let conn = Connection::open_in_memory().unwrap();
    conn.execute_batch("CREATE VIRTUAL TABLE pages_fts USING fts5(title, body)").unwrap();
    for w in &index.words {
        conn.execute(
            "INSERT INTO pages_fts(rowid, title, body) VALUES(?1, ?2, ?3)",
            (w.id, &w.title, &w.body),
        )
        .unwrap();
    }
    let mut stmt = conn
        .prepare(
            "SELECT rowid, title, snippet(pages_fts, 1, '<b>', '</b>', '...', 20), bm25(pages_fts)
             FROM pages_fts WHERE pages_fts MATCH ?1 ORDER BY bm25(pages_fts) LIMIT ?2",
        )
        .unwrap();
    let found = stmt
        .query_map((query, limit), |r| {
            let id: i64 = r.get(0)?;
            let page = index.pages.iter().find(|p| p.id == id).unwrap();
            Ok(SearchResult {
                url: page.url.clone(),
                title: r.get(1)?,
                snippet: r.get(2)?,
                rank: Number { bits: r.get::<_, f64>(3)?.to_bits() },
                first_visit_at: None,
                last_visit_at: None,
                starred: page.starred,
            })
        })
        .unwrap();
    found.filter_map(|r| r.ok()).collect()
}

fn search(index: &IndexStore, query: &str, limit: u32) -> Vec<SearchResult> {
    let found = index.search(by_words(index, query, limit), query, limit);
    merge_results(&Vec::new(), &found, &Vec::new(), limit)
}

fn recent(limit: u32) -> Vec<HistoryItem> {
    let items = OrionBrowser.recent(history(), recent_fetch_limit(limit)).unwrap();
    filter_recent(items, &Vec::new(), &Vec::new(), limit)
}

#[test]
fn list_pages_returns_all_seeded_entries() {
    assert_eq!(seeded().list_pages(default_page_limit(), 0, None).len(), 3);
}

#[test]
fn list_pages_filters_by_query() {
    let items = seeded().list_pages(default_page_limit(), 0, Some("serde"));
    assert!(items.iter().any(|i| i.url.contains("serde")), "expected serde result");
    assert_eq!(items.len(), 1);
}

#[test]
fn list_pages_respects_limit() {
    assert_eq!(seeded().list_pages(1, 0, None).len(), 1);
}

#[test]
fn starred_empty_by_default() {
    assert!(seeded().get_starred(default_limit()).is_empty());
}

#[test]
fn star_and_unstar_page() {
    let url = "https://rust-lang.org";
    let mut index = seeded();
    index.set_starred(url, true);
    assert!(index.get_starred(default_limit()).iter().any(|i| i.url == url));
    index.set_starred(url, false);
    assert!(!index.get_starred(default_limit()).iter().any(|i| i.url == url));
}

#[test]
fn delete_page_removes_entry() {
    let url = "https://tokio.rs";
    let mut index = seeded();
    index.delete_page(url);
    let items = index.list_pages(default_page_limit(), 0, None);
    assert!(!items.iter().any(|i| i.url == url), "tokio.rs should have been deleted");
}

#[test]
fn ban_host_returns_deleted_count() {
    assert_eq!(seeded().ban_host("tokio.rs"), 1);
}

#[test]
fn sync_pause_and_unpause() {
    assert!(sync_status(0, true, 60).paused);
    assert!(!sync_status(0, false, 60).paused);
    assert_eq!(sync_status(0, false, 60).interval_mins, 60);
}

#[test]
fn import_starred_roundtrip() {
    let url = "https://rust-lang.org";
    let mut index = seeded();
    index.set_starred(url, true);
    let export: Vec<(String, String)> =
        index.get_starred(10000).into_iter().map(|p| (p.url, p.title)).collect();
    index.set_starred(url, false);
    assert_eq!(index.import_starred(&export, NOW), 1);
    assert!(index.get_starred(default_limit()).iter().any(|i| i.url == url));
}

#[test]
fn recent_is_ordered_by_last_visit_desc() {
    let times: Vec<i64> = recent(5).iter().map(|i| i.last_visit_time.secs).collect();
    let mut sorted = times.clone();
    sorted.sort_by(|a, b| b.cmp(a));
    assert_eq!(times, sorted, "items must be newest-first");
}

#[test]
fn recent_most_recent_item_is_correct() {
    assert_eq!(recent(1)[0].url, "https://example.com/page1");
}

#[test]
fn recent_respects_limit_param() {
    assert_eq!(recent(3).len(), 3);
}

#[test]
fn recent_returns_all_when_limit_exceeds_total() {
    assert_eq!(recent(default_limit()).len(), 5);
}

#[test]
fn top_sites_is_ordered_by_visit_count_desc() {
    let items = OrionBrowser.top_sites(history(), 5).unwrap();
    let counts: Vec<i64> = items.iter().map(|i| i.visit_count).collect();
    assert_eq!(counts, vec![50, 20, 12, 8, 5]);
}

#[test]
fn top_sites_first_is_most_visited() {
    let items = OrionBrowser.top_sites(history(), 1).unwrap();
    assert_eq!(items[0].host, "github.com");
    assert_eq!(items[0].visit_count, 50);
}

#[test]
fn top_sites_respects_limit_param() {
    assert_eq!(OrionBrowser.top_sites(history(), 2).unwrap().len(), 2);
}

#[test]
fn search_returns_matching_results() {
    let items = search(&seeded(), "rust", default_limit());
    assert!(!items.is_empty(), "expected results for 'rust'");
    assert!(items[0].url.contains("rust-lang.org"));
    assert!(items[0].snippet.contains("<b>Rust</b>"));
}

#[test]
fn search_returns_empty_for_no_match() {
    assert!(search(&seeded(), "zzznomatch99999", default_limit()).is_empty());
}

#[test]
fn search_respects_limit_param() {
    assert_eq!(search(&seeded(), "rust", 1).len(), 1);
}

fn ask(index: &IndexStore, q: &str) -> AskResponse {
    let question = Question {
        q: q.into(),
        k: 5,
        given: Vec::new(),
        max_context_chars: 8000,
        system_prompt: None,
        date: "2026-05-01".into(),
    };
    let (mut stage, mut event) = (AskStage::Begin, AskEvent::Started);
    loop {
        let (next, action) = ask_step(&question, stage, event);
        stage = next;
        event = match action {
            AskAction::Search { q, k } => {
                let found = index.search(by_words(index, &q, k), &q, k);
                let by_words = found.into_iter().map(|r| (r.url, r.title)).collect();
                AskEvent::Hits { by_meaning: Vec::new(), by_words }
            }
            AskAction::Read { urls } => AskEvent::Bodies(index.get_bodies(&urls)),
            AskAction::Think { .. } => AskEvent::Answer("Mock answer from LLM.".into()),
            AskAction::NoSources => return no_sources(q).0,
            AskAction::Finish { answer, sources } => return ask_answer(q, answer, &sources).0,
            AskAction::Refuse(e) => panic!("{e}"),
        };
    }
}

#[test]
fn ask_matching_query_returns_200_with_answer_and_sources() {
    let response = ask(&seeded(), "rust programming");
    assert_eq!(response.answer, "Mock answer from LLM.");
    assert!(response.sources.contains(&"https://rust-lang.org".to_string()));
}

#[test]
fn ask_no_matching_pages_returns_no_relevant_message() {
    let response = ask(&seeded(), "zzz_nonexistent_topic_xyz");
    assert!(response.answer.contains("No relevant pages found"));
    assert!(response.sources.is_empty());
}

fn log_after_search() -> SessionLog {
    let mut log = SessionLog::new();
    let line = search_line("rust", search(&seeded(), "rust", default_limit()).len());
    log.push(Timestamp { secs: 1, nanos: 0 }, line.kind, line.message, line.detail);
    log
}

#[test]
fn log_api_returns_200_and_array() {
    assert!(log_entries(&SessionLog::new(), &None).is_empty());
}

#[test]
fn log_api_entries_appear_after_search() {
    let entries = log_entries(&log_after_search(), &None);
    assert_eq!(entries[0].kind, LogKind::Search);
    assert!(entries[0].message.contains("rust"));
}

#[test]
fn log_api_kind_filter_returns_only_matching_entries() {
    let entries = log_entries(&log_after_search(), &Some("search".into()));
    assert!(!entries.is_empty());
    assert!(entries.iter().all(|e| e.kind == LogKind::Search));
}

#[test]
fn log_api_unknown_kind_returns_empty_array() {
    assert!(log_entries(&log_after_search(), &Some("bogus".into())).is_empty());
}
