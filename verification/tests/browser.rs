use memoir::browser::firefox::{firefox_timestamp, FirefoxBrowser, Place};
use memoir::browser::orion::{self, parse_timestamp, OrionBrowser, OrionRow};
use memoir::browser::safari::{SafariBrowser, SafariVisit};
use memoir::browser::{for_config, MissingValue, Schema};
use memoir::config::{BrowserKind, BrowserSettings};
use memoir::json::Json;
use memoir::score::Number;
use rusqlite::Connection;

fn firefox_rows() -> Vec<Place> {
    let conn = Connection::open_in_memory().unwrap();
    conn.execute_batch(
        "CREATE TABLE moz_places (
            id INTEGER PRIMARY KEY AUTOINCREMENT,
            url TEXT, title TEXT,
            last_visit_date INTEGER,
            visit_count INTEGER DEFAULT 0
        );
        INSERT INTO moz_places (url, title, last_visit_date, visit_count) VALUES
            ('https://a.com/page', 'A', 1777399200000000, 3),
            ('https://b.com/page', 'B', 1777397400000000, 9),
            ('https://c.com/page', 'C', 1777395600000000, 1);",
    )
    .unwrap();
    let mut stmt = conn
        .prepare("SELECT id, url, title, last_visit_date, visit_count FROM moz_places")
        .unwrap();
    let rows = stmt
        .query_map([], |r| {
            Ok(Place {
                id: r.get(0)?,
                url: r.get(1)?,
                title: r.get(2)?,
                last_visit_date: r.get(3)?,
                visit_count: r.get(4)?,
            })
        })
        .unwrap();
    rows.map(|r| r.unwrap()).collect()
}

#[test]
fn firefox_recent_returns_items_newest_first() {
    let items = FirefoxBrowser.recent(firefox_rows(), 10).unwrap();
    assert_eq!(items.len(), 3);
    assert_eq!(items[0].url, "https://a.com/page");
    assert_eq!(items[2].url, "https://c.com/page");
}

#[test]
fn firefox_recent_respects_limit() {
    let items = FirefoxBrowser.recent(firefox_rows(), 2).unwrap();
    assert_eq!(items.len(), 2);
}

#[test]
fn firefox_top_sites_returns_highest_visit_count_first() {
    let items = FirefoxBrowser.top_sites(firefox_rows(), 10).unwrap();
    assert_eq!(items[0].url, "https://b.com/page");
    assert_eq!(items[0].visit_count, 9);
}

#[test]
fn host_is_extracted_from_url() {
    let items = FirefoxBrowser.recent(firefox_rows(), 1).unwrap();
    assert_eq!(items[0].host, "a.com");
}

#[test]
fn timestamp_conversion_is_correct() {
    let items = FirefoxBrowser.recent(firefox_rows(), 1).unwrap();
    assert_eq!(items[0].last_visit_time.to_text(), "2026-04-28 18:00:00");
}

fn place(url: Option<&str>, date: Option<i64>, count: Option<i64>) -> Place {
    Place {
        id: 1,
        url: url.map(String::from),
        title: None,
        last_visit_date: date,
        visit_count: count,
    }
}

#[test]
fn firefox_leaves_out_pages_never_visited() {
    let rows = vec![
        place(Some("https://a.com"), None, Some(5)),
        place(Some("https://b.com"), Some(1), Some(0)),
        place(Some("https://c.com"), Some(2), None),
        place(Some("https://d.com"), Some(3), Some(1)),
    ];
    let items = FirefoxBrowser.recent(rows, 10).unwrap();
    assert_eq!(items.len(), 1);
    assert_eq!(items[0].url, "https://d.com");
    let rows = vec![place(Some("https://a.com"), None, Some(5))];
    let top = FirefoxBrowser.top_sites(rows, 10).unwrap();
    assert_eq!(top[0].last_visit_time.to_text(), "1970-01-01 00:00:00");
}

#[test]
fn firefox_refuses_a_page_without_url_only_where_it_is_shown() {
    let rows = || {
        vec![
            place(Some("https://a.com"), Some(9), Some(1)),
            place(None, Some(1), Some(1)),
        ]
    };
    assert_eq!(FirefoxBrowser.recent(rows(), 2).unwrap_err(), MissingValue);
    assert_eq!(FirefoxBrowser.recent(rows(), 1).unwrap().len(), 1);
}

#[test]
fn firefox_times_outside_the_calendar_are_the_start() {
    assert_eq!(firefox_timestamp(i64::MAX).to_text(), "1970-01-01 00:00:00");
    assert_eq!(firefox_timestamp(-1_500_000).secs, -1);
    assert_eq!(firefox_timestamp(-1_500_000).nanos, 500_000_000);
    assert_eq!(firefox_timestamp(1_500_000).nanos, 500_000_000);
}

fn orion_rows() -> Vec<OrionRow> {
    let conn = Connection::open_in_memory().unwrap();
    conn.execute_batch(
        "CREATE TABLE history_items (
            ID INTEGER PRIMARY KEY AUTOINCREMENT,
            URL TEXT, TITLE TEXT, HOST TEXT,
            LAST_VISIT_TIME TIMESTAMP DEFAULT CURRENT_TIMESTAMP,
            VISIT_COUNT INTEGER, TYPED_COUNT INTEGER
        );
        INSERT INTO history_items (URL, TITLE, HOST, LAST_VISIT_TIME, VISIT_COUNT) VALUES
            ('https://a.com', 'A', 'a.com', '2026-04-30 10:00:00', 3),
            ('https://b.com', 'B', 'b.com', '2026-04-30 09:00:00', 9),
            ('https://c.com', 'C', 'c.com', '2026-04-29 08:00:00', 1);",
    )
    .unwrap();
    let mut stmt = conn
        .prepare("SELECT ID, URL, TITLE, HOST, LAST_VISIT_TIME, VISIT_COUNT FROM history_items")
        .unwrap();
    let rows = stmt
        .query_map([], |r| {
            Ok(OrionRow {
                id: r.get(0)?,
                url: r.get(1)?,
                title: r.get(2)?,
                host: r.get(3)?,
                last_visit_time: r.get(4)?,
                visit_count: r.get(5)?,
            })
        })
        .unwrap();
    rows.map(|r| r.unwrap()).collect()
}

#[test]
fn orion_recent_returns_items_newest_first() {
    let items = orion::recent(orion_rows(), 10).unwrap();
    assert_eq!(items.len(), 3);
    assert_eq!(items[0].url, "https://a.com");
    assert_eq!(items[2].url, "https://c.com");
}

#[test]
fn orion_recent_respects_limit() {
    let items = orion::recent(orion_rows(), 2).unwrap();
    assert_eq!(items.len(), 2);
}

#[test]
fn orion_top_sites_returns_highest_visit_count_first() {
    let items = orion::top_sites(orion_rows(), 10).unwrap();
    assert_eq!(items[0].url, "https://b.com");
    assert_eq!(items[0].visit_count, 9);
}

#[test]
fn parse_timestamp_handles_space_separator() {
    let dt = parse_timestamp("2026-04-30 10:00:00");
    assert_eq!(dt.to_text(), "2026-04-30 10:00:00");
}

#[test]
fn orion_browser_trait_recent() {
    let items = OrionBrowser.recent(orion_rows(), 10).unwrap();
    assert_eq!(items.len(), 3);
    assert_eq!(items[0].url, "https://a.com");
}

#[test]
fn orion_times_may_have_a_t_or_be_unreadable() {
    assert_eq!(parse_timestamp("2026-04-30T10:00:00").to_text(), "2026-04-30 10:00:00");
    assert_eq!(parse_timestamp("yesterday").to_text(), "1970-01-01 00:00:00");
}

#[test]
fn orion_refuses_a_row_without_a_value() {
    let mut rows = orion_rows();
    rows[0].host = None;
    assert_eq!(orion::recent(rows, 10).unwrap_err(), MissingValue);
}

fn safari_rows() -> Vec<SafariVisit> {
    let conn = Connection::open_in_memory().unwrap();
    conn.execute_batch(
        "CREATE TABLE history_items (
            id INTEGER PRIMARY KEY AUTOINCREMENT,
            url TEXT NOT NULL UNIQUE,
            visit_count INTEGER DEFAULT 0
        );
        CREATE TABLE history_visits (
            id INTEGER PRIMARY KEY AUTOINCREMENT,
            history_item INTEGER NOT NULL REFERENCES history_items(id),
            visit_time REAL,
            title TEXT
        );
        INSERT INTO history_items (url, visit_count) VALUES
            ('https://a.com/page', 3),
            ('https://b.com/page', 9);
        INSERT INTO history_visits (history_item, visit_time, title) VALUES
            (1, 100.0, 'Page A'),
            (2,  50.0, 'Page B');",
    )
    .unwrap();
    let mut stmt = conn
        .prepare(
            "SELECT hi.id, hi.url, hv.title, hv.visit_time, hi.visit_count
             FROM history_visits hv JOIN history_items hi ON hv.history_item = hi.id",
        )
        .unwrap();
    let rows = stmt
        .query_map([], |r| {
            let time: Option<f64> = r.get(3)?;
            Ok(SafariVisit {
                id: r.get(0)?,
                url: r.get(1)?,
                title: r.get(2)?,
                visit_time: time.map(|t| Number { bits: t.to_bits() }),
                whole_secs: time.unwrap_or(0.0) as i64,
                visit_count: r.get(4)?,
            })
        })
        .unwrap();
    rows.map(|r| r.unwrap()).collect()
}

#[test]
fn recent_returns_newest_first() {
    let items = SafariBrowser.recent(safari_rows(), 10);
    assert_eq!(items.len(), 2);
    assert_eq!(items[0].url, "https://a.com/page");
}

#[test]
fn safari_top_sites_returns_highest_visit_count_first() {
    let items = SafariBrowser.top_sites(safari_rows(), 10);
    assert_eq!(items[0].url, "https://b.com/page");
    assert_eq!(items[0].visit_count, 9);
}

#[test]
fn timestamp_epoch_offset_is_applied() {
    let items = SafariBrowser.recent(safari_rows(), 1);
    assert_eq!(items[0].last_visit_time.to_text(), "2001-01-01 00:01:40");
}

#[test]
fn safari_orders_fractions_and_missing_times() {
    let visit = |id: i64, time: Option<f64>| SafariVisit {
        id,
        url: format!("https://{id}.org"),
        title: None,
        visit_time: time.map(|t| Number { bits: t.to_bits() }),
        whole_secs: time.unwrap_or(0.0) as i64,
        visit_count: 1,
    };
    let rows = vec![
        visit(1, Some(-2.5)),
        visit(2, None),
        visit(3, Some(7.25)),
        visit(4, Some(7.5)),
        visit(5, Some(0.0)),
    ];
    let ids: Vec<i64> = SafariBrowser.recent(rows, 10).iter().map(|i| i.id).collect();
    assert_eq!(ids, vec![4, 3, 5, 1, 2]);
}

#[test]
fn each_kind_has_its_schema() {
    let schema = |kind| for_config(&BrowserSettings { history_db_path: String::new(), kind });
    assert_eq!(schema(BrowserKind::Edge), Schema::Chromium);
    assert_eq!(schema(BrowserKind::Arc), Schema::Chromium);
    assert_eq!(schema(BrowserKind::Orion), Schema::Orion);
    assert_eq!(schema(BrowserKind::Firefox), Schema::Firefox);
    assert_eq!(schema(BrowserKind::Safari), Schema::Safari);
}

fn text(s: &str) -> Json {
    Json::of(s)
}

#[test]
fn the_reading_list_is_searched_for_links() {
    let inner = Json::empty().with("title", text("Inner"));
    let list = Json::list_of(vec![
        Json::empty().with("URLString", text("https://a.com")).with("title", text("A")),
        Json::empty().with("url", text("ftp://b.com")),
        Json::empty()
            .with("folder", Json::only(Json::empty().with("URL", text("http://c.com")).with("URIDictionary", inner))),
        Json::empty().with("URLString", Json::Unsigned(1)).with("url", text("https://d.com")),
        text("https://e.com"),
    ]);
    assert_eq!(
        orion::reading_list(&list),
        vec![
            ("https://a.com".to_string(), "A".to_string()),
            ("http://c.com".to_string(), "Inner".to_string()),
        ]
    );
}

#[test]
fn a_stored_reading_list_is_read() {
    let stored = r#"<?xml version="1.0" encoding="UTF-8"?>
<plist version="1.0">
<array>
  <dict>
    <key>URLString</key><string>https://a.com</string>
    <key>title</key><string>A &amp; B</string>
    <key>count</key><integer>3</integer>
  </dict>
  <dict>
    <key>folder</key>
    <array><dict><key>URL</key><string>http://c.com</string></dict></array>
  </dict>
</array>
</plist>"#;
    assert_eq!(
        OrionBrowser.reading_list_items(&Some(stored.as_bytes().to_vec())),
        vec![
            ("https://a.com".to_string(), "A & B".to_string()),
            ("http://c.com".to_string(), String::new()),
        ]
    );
    assert!(OrionBrowser.reading_list_items(&Some(b"nothing of the kind".to_vec())).is_empty());
    assert!(OrionBrowser.reading_list_items(&None).is_empty());
}
