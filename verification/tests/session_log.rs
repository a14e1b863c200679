use memoir::server::handlers::log_entries;
use memoir::session_log::{LogKind, SessionLog};
use memoir::time::Timestamp;

fn at(secs: i64) -> Timestamp {
    Timestamp { secs, nanos: 0 }
}

#[test]
fn the_newest_entry_comes_first() {
    let mut log = SessionLog::new();
    log.push(at(1), LogKind::Sync, "a".into(), None);
    log.push(at(3), LogKind::Llm, "b".into(), Some("d".into()));
    log.push(at(2), LogKind::Sync, "c".into(), None);
    let all: Vec<String> = log.get_all().into_iter().map(|e| e.message).collect();
    assert_eq!(all, vec!["b", "c", "a"]);
    let sync: Vec<String> = log.get_by_kind("sync").into_iter().map(|e| e.message).collect();
    assert_eq!(sync, vec!["c", "a"]);
    assert_eq!(log.get_by_kind("llm")[0].detail.as_deref(), Some("d"));
    assert!(log.get_by_kind("search").is_empty());
    assert!(log.get_by_kind("Sync").is_empty());
}

#[test]
fn entries_of_the_same_time_stand_by_kind() {
    let mut log = SessionLog::default();
    log.push(at(1), LogKind::Error, "e".into(), None);
    log.push(at(1), LogKind::Search, "s1".into(), None);
    log.push(at(1), LogKind::Search, "s2".into(), None);
    log.push(at(1), LogKind::Sync, "y".into(), None);
    let all: Vec<String> = log.get_all().into_iter().map(|e| e.message).collect();
    assert_eq!(all, vec!["y", "s2", "s1", "e"]);
}

#[test]
fn each_kind_keeps_its_newest_entries_only() {
    let mut log = SessionLog::new();
    for i in 0..600 {
        for kind in [LogKind::Sync, LogKind::Llm, LogKind::Search, LogKind::Error] {
            log.push(at(i), kind, i.to_string(), None);
        }
    }
    assert_eq!(log.get_by_kind("sync").len(), 500);
    assert_eq!(log.get_by_kind("llm").len(), 100);
    assert_eq!(log.get_by_kind("search").len(), 500);
    assert_eq!(log.get_by_kind("error").len(), 200);
    assert_eq!(log.get_by_kind("llm")[0].message, "599");
    assert_eq!(log.get_by_kind("llm")[99].message, "500");
    assert_eq!(log.get_all().len(), 1300);
}

#[test]
fn entries_are_chosen_by_kind() {
    let mut log = SessionLog::new();
    log.push(at(1), LogKind::Sync, "a".into(), None);
    log.push(at(2), LogKind::Llm, "b".into(), None);
    assert_eq!(log_entries(&log, &None).len(), 2);
    assert_eq!(log_entries(&log, &Some(String::new())).len(), 2);
    assert_eq!(log_entries(&log, &Some("llm".into())).len(), 1);
    assert_eq!(log_entries(&log, &Some("nope".into())).len(), 0);
}
