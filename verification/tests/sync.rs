use memoir::browser::HistoryItem;
use memoir::config::Settings;
use memoir::fetch::extract::ExtractedPage;
use memoir::fetch::FetchResult;
use memoir::index::store::FetchStatus;
use memoir::paths::Platform;
use memoir::session_log::LogKind;
use memoir::sync::{sync_step, Action, Event, LogLine, Plan, Stage};
use memoir::time::Timestamp;

fn plan(embeds: bool) -> Plan {
    let mut settings = Settings::default_in(Platform::Linux, "/home/user");
    settings.fetch.ban = vec!["bad.com".into()];
    Plan::from_settings(&settings, embeds)
}

fn messages(log: &[LogLine]) -> Vec<&str> {
    log.iter().map(|l| l.message.as_str()).collect()
}

fn item(url: &str, secs: i64) -> HistoryItem {
    HistoryItem {
        id: 1,
        url: url.into(),
        title: None,
        host: String::new(),
        last_visit_time: Timestamp { secs, nanos: 0 },
        visit_count: 1,
    }
}

#[test]
fn a_run_reads_a_changed_history() {
    let p = plan(false);
    let (stage, log, action) = sync_step(&p, Stage::Begin, Event::Started);
    assert_eq!(messages(&log), vec!["Sync started"]);
    assert!(matches!(action, Action::ReadTimes));
    let times = Event::Times { current: Some("2".into()), stored: Some("1".into()) };
    let (stage, log, action) = sync_step(&p, stage, times);
    assert_eq!(messages(&log), vec!["Browser history changed — reading new visits"]);
    assert!(matches!(action, Action::ReadHistory { limit: 1000 }));
    let history = Event::History {
        items: vec![item("https://a.com", 86_400), item("https://x.bad.com", 1)],
        reading_list: vec![("https://r.com".into(), "R".into())],
    };
    let (stage, _, action) = sync_step(&p, stage, history);
    match action {
        Action::Register { visits, urls } => {
            assert_eq!(visits, vec![("https://a.com".to_string(), "1970-01-02 00:00:00".to_string())]);
            assert_eq!(urls, vec!["https://r.com"]);
        }
        _ => panic!("registration was expected"),
    }
    let (stage, _, action) = sync_step(&p, stage, Event::Done);
    assert!(matches!(action, Action::ListPending { limit: 500 }));
    let (stage, log, action) = sync_step(&p, stage, Event::Urls(vec![]));
    assert!(log.is_empty());
    assert!(matches!(action, Action::Remember { mtime } if mtime == "2"));
    let (_, log, action) = sync_step(&p, stage, Event::Done);
    assert_eq!(
        messages(&log),
        vec!["No pages to fetch", "Semantic indexing skipped (no embedding model)", "Sync complete"]
    );
    assert!(matches!(action, Action::Finish));
}

#[test]
fn an_unchanged_history_is_not_read() {
    let p = plan(false);
    let times = Event::Times { current: Some("1".into()), stored: Some("1".into()) };
    let (_, log, action) = sync_step(&p, Stage::Timing, times);
    assert_eq!(messages(&log), vec!["Browser history unchanged — checking for pending pages"]);
    assert!(matches!(action, Action::ListPending { .. }));
    let (_, _, action) =
        sync_step(&p, Stage::Timing, Event::Times { current: None, stored: None });
    assert!(matches!(action, Action::ListPending { .. }));
    let (stage, _, action) =
        sync_step(&p, Stage::Timing, Event::Times { current: None, stored: Some("1".into()) });
    assert!(matches!(action, Action::ReadHistory { .. }));
    assert!(matches!(stage, Stage::Reading(None)));
}

fn urls() -> Vec<String> {
    vec!["https://bad.com/x".into(), "https://a.com:80/y".into()]
}

#[test]
fn pages_are_fetched_one_after_the_other() {
    let p = plan(false);
    let (stage, log, action) = sync_step(&p, Stage::Listing(None), Event::Urls(urls()));
    assert_eq!(messages(&log), vec!["Fetching 2 page(s)"]);
    assert!(matches!(&action, Action::Mark { url, status: FetchStatus::Skip } if url == "https://bad.com/x"));
    let (stage, _, action) = sync_step(&p, stage, Event::Done);
    assert!(matches!(&action, Action::Fetch { url } if url == "https://a.com:80/y"));
    let page = ExtractedPage { title: "T".into(), body: "B".into(), recipe: None };
    let (stage, log, action) = sync_step(&p, stage, Event::Page(FetchResult::Page(page)));
    assert!(log.is_empty());
    assert!(matches!(&action, Action::Store { title, body, .. } if title == "T" && body == "B"));
    let (stage, _, action) = sync_step(&p, stage, Event::Done);
    assert!(matches!(&action, Action::CheckIcon { host } if host == "a.com"));
    let (stage, _, action) = sync_step(&p, stage, Event::HasIcon(false));
    assert!(matches!(&action, Action::FetchIcon { url } if url == "https://a.com:80/y"));
    let icon = Event::Icon(Some(("a.com".into(), "image/png".into(), vec![1])));
    let (stage, log, action) = sync_step(&p, stage, icon);
    assert!(log.is_empty());
    assert!(matches!(&action, Action::StoreIcon { data, .. } if data == &vec![1]));
    let (_, log, action) = sync_step(&p, stage, Event::Done);
    assert_eq!(messages(&log)[0], "Indexed: https://a.com:80/y");
    assert_eq!(messages(&log)[2], "Sync complete");
    assert!(matches!(action, Action::Finish));
}

#[test]
fn failures_are_logged_and_marked() {
    let p = plan(false);
    let stage = || Stage::Fetching(urls(), 1);
    let (next, log, action) = sync_step(&p, stage(), Event::Page(FetchResult::AuthWall));
    assert!(log.is_empty());
    assert!(matches!(action, Action::Mark { status: FetchStatus::AuthWall, .. }));
    let (_, log, _) = sync_step(&p, next, Event::Done);
    assert_eq!(messages(&log)[0], "Skipped (auth wall): https://a.com:80/y");
    let (_, log, action) = sync_step(&p, stage(), Event::Page(FetchResult::Skip));
    assert!(log.is_empty());
    assert!(matches!(action, Action::Mark { status: FetchStatus::Skip, .. }));
    let (next, log, action) =
        sync_step(&p, stage(), Event::Page(FetchResult::Error("timeout".into())));
    assert!(log.is_empty());
    assert!(matches!(action, Action::Fail { max_attempts: 3, .. }));
    let (_, log, action) = sync_step(&p, next, Event::Done);
    assert_eq!(log[0].kind, LogKind::Error);
    assert_eq!(log[0].message, "Fetch error: https://a.com:80/y");
    assert_eq!(log[0].detail.as_deref(), Some("timeout"));
    assert!(matches!(action, Action::Finish));
    let (_, log, _) = sync_step(&p, Stage::Loading(urls(), 1), Event::Icon(None));
    assert_eq!(messages(&log)[0], "Indexed: https://a.com:80/y");
    let (_, log, _) = sync_step(&p, Stage::Checking(urls(), 1), Event::HasIcon(true));
    assert_eq!(messages(&log)[0], "Indexed: https://a.com:80/y");
}

#[test]
fn pages_are_embedded_after_they_are_fetched() {
    let p = plan(true);
    let (stage, log, action) = sync_step(&p, Stage::Listing(None), Event::Urls(vec![]));
    assert_eq!(messages(&log), vec!["No pages to fetch"]);
    assert!(matches!(action, Action::ListUnembedded { limit: 200 }));
    let pages = vec![
        ("u1".to_string(), "T1".to_string(), "B1".to_string()),
        ("u2".to_string(), "T2".to_string(), "B2".to_string()),
    ];
    let (stage, log, action) = sync_step(&p, stage, Event::Pages(pages));
    assert_eq!(messages(&log), vec!["Embedding 2 page(s)"]);
    assert!(matches!(&action, Action::Embed { text } if text == "T1 B1"));
    let (stage, log, action) = sync_step(&p, stage, Event::EmbedFailed("oops".into()));
    assert_eq!(messages(&log), vec!["Embed error: u1"]);
    assert!(matches!(&action, Action::Embed { text } if text == "T2 B2"));
    let (stage, _, action) = sync_step(&p, stage, Event::Vector(vec![1, 2, 3, 4]));
    assert!(matches!(&action, Action::StoreEmbedding { url, .. } if url == "u2"));
    let (_, log, action) = sync_step(&p, stage, Event::Done);
    assert_eq!(
        messages(&log),
        vec!["Embedding complete — 1 page(s) embedded", "Sync complete"]
    );
    assert!(matches!(action, Action::Finish));
}

#[test]
fn nothing_to_embed_ends_the_run() {
    let p = plan(true);
    let (_, log, action) = sync_step(&p, Stage::Gathering, Event::Pages(vec![]));
    assert_eq!(messages(&log), vec!["Sync complete"]);
    assert!(matches!(action, Action::Finish));
    let one = vec![("u".to_string(), String::new(), String::new())];
    let (_, log, _) = sync_step(&p, Stage::Embedding(one, 0, 0), Event::EmbedPanicked("p".into()));
    assert_eq!(messages(&log), vec!["Embed panic: u", "Sync complete"]);
}
