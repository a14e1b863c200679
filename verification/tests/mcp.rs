use memoir::index::query::PageEntry;
use memoir::index::search::SearchResult;
use memoir::index::store::FetchStatus;
use memoir::json::{parse_json, Json};
use memoir::mcp::{
    answer_text, dispatch, handle_initialize, handle_tools_list, page_text, read_tool_call,
    recent_text, respond, search_text, starred_text, tool_result, Request, Tool,
};
use memoir::score::Number;

fn json(s: &str) -> Json {
    parse_json(s).unwrap()
}

#[test]
fn the_server_introduces_itself() {
    let j = handle_initialize();
    assert_eq!(j.text_at("protocolVersion"), Some("2024-11-05"));
    assert_eq!(j.get("serverInfo").unwrap().text_at("name"), Some("memoir"));
    assert!(j.get("capabilities").unwrap().get("tools").is_some());
}

#[test]
fn the_tools_are_listed() {
    let j = handle_tools_list();
    let names: Vec<&str> =
        j.list_at("tools").unwrap().iter().map(|t| t.text_at("name").unwrap()).collect();
    assert_eq!(names, vec!["search", "ask", "get_page", "get_recent", "get_starred"]);
    let schema = j.list_at("tools").unwrap()[0].get("inputSchema").unwrap();
    assert_eq!(schema.list_at("required").unwrap()[0].text(), Some("query"));
    let recent = j.list_at("tools").unwrap()[3].get("inputSchema").unwrap();
    assert!(recent.get("required").is_none());
}

#[test]
fn notifications_are_not_answered() {
    assert!(matches!(dispatch(&json(r#"{"method":"initialize"}"#)), Request::Notification));
}

#[test]
fn unknown_methods_are_refused() {
    match dispatch(&json(r#"{"id":7,"method":"nope"}"#)) {
        Request::Answered(j) => {
            assert_eq!(j.get("id").unwrap().unsigned(), Some(7));
            let e = j.get("error").unwrap();
            assert_eq!(e.text_at("message"), Some("unknown method: nope"));
            assert!(matches!(e.get("code"), Some(Json::Number(n)) if n == "-32600"));
        }
        _ => panic!("an answer was expected"),
    }
    match dispatch(&json(r#"{"id":null}"#)) {
        Request::Answered(j) => {
            assert!(matches!(j.get("id"), Some(Json::Null)));
            assert_eq!(j.get("error").unwrap().text_at("message"), Some("unknown method: "));
        }
        _ => panic!("an answer was expected"),
    }
}

#[test]
fn known_methods_are_answered() {
    match dispatch(&json(r#"{"id":"x","method":"tools/list"}"#)) {
        Request::Answered(j) => {
            assert_eq!(j.text_at("jsonrpc"), Some("2.0"));
            assert_eq!(j.text_at("id"), Some("x"));
            assert_eq!(j.get("result").unwrap().list_at("tools").unwrap().len(), 5);
        }
        _ => panic!("an answer was expected"),
    }
    let call = r#"{"id":1,"method":"tools/call","params":{"name":"search","arguments":{"query":"q"}}}"#;
    match dispatch(&json(call)) {
        Request::Call { id, tool } => {
            assert_eq!(id.unsigned(), Some(1));
            assert!(matches!(tool, Tool::Search { query, limit: 10 } if query == "q"));
        }
        _ => panic!("a call was expected"),
    }
    match dispatch(&json(r#"{"id":1,"method":"tools/call"}"#)) {
        Request::Answered(j) => assert_eq!(
            j.get("error").unwrap().text_at("message"),
            Some("missing tool name")
        ),
        _ => panic!("an answer was expected"),
    }
}

fn call_error(s: &str) -> String {
    match read_tool_call(&json(s)) {
        Ok(_) => panic!("an error was expected"),
        Err(e) => e,
    }
}

#[test]
fn calls_are_checked() {
    assert_eq!(call_error(r#"{}"#), "missing tool name");
    assert_eq!(call_error(r#"{"name":"search"}"#), "missing query");
    assert_eq!(call_error(r#"{"name":"ask","arguments":{"query":1}}"#), "missing query");
    assert_eq!(call_error(r#"{"name":"get_page","arguments":{}}"#), "missing url");
    assert_eq!(call_error(r#"{"name":"fly"}"#), "unknown tool: fly");
    let ok = |s: &str| read_tool_call(&json(s)).ok().unwrap();
    assert!(matches!(ok(r#"{"name":"ask","arguments":{"query":"q"}}"#), Tool::Ask { k: 5, .. }));
    assert!(matches!(ok(r#"{"name":"get_recent"}"#), Tool::GetRecent { limit: 20 }));
    assert!(matches!(ok(r#"{"name":"get_starred"}"#), Tool::GetStarred { limit: 50 }));
    assert!(matches!(
        ok(r#"{"name":"get_recent","arguments":{"limit":4294967299}}"#),
        Tool::GetRecent { limit: 3 }
    ));
    assert!(matches!(
        ok(r#"{"name":"get_recent","arguments":{"limit":-1}}"#),
        Tool::GetRecent { limit: 20 }
    ));
    assert!(matches!(ok(r#"{"name":"get_page","arguments":{"url":"u"}}"#), Tool::GetPage { url } if url == "u"));
}

fn hit(url: &str, title: &str, snippet: &str) -> SearchResult {
    SearchResult {
        url: url.into(),
        title: title.into(),
        snippet: snippet.into(),
        rank: Number { bits: 0 },
        first_visit_at: None,
        last_visit_at: None,
        starred: false,
    }
}

fn entry(url: &str, title: &str) -> PageEntry {
    PageEntry {
        url: url.into(),
        title: title.into(),
        fetch_status: FetchStatus::Fetched,
        starred: false,
    }
}

#[test]
fn results_are_written_out() {
    assert_eq!(search_text(&Vec::new()), "No results found.");
    assert_eq!(
        search_text(&vec![hit("u1", "T", "s1"), hit("u2", "", "s2")]),
        "1. T\n   URL: u1\n   s1\n\n2. u2\n   URL: u2\n   s2"
    );
    assert_eq!(recent_text(&Vec::new()), "No pages in index.");
    assert_eq!(starred_text(&Vec::new()), "No starred pages.");
    assert_eq!(
        recent_text(&vec![entry("u1", "T"), entry("u2", "")]),
        "1. T\n   u1\n\n2. u2\n   u2"
    );
    assert_eq!(
        answer_text("A", &vec![("u".to_string(), "T".to_string())]),
        "A\n\nSources:\n[1] T — u"
    );
}

#[test]
fn pages_are_written_out() {
    assert_eq!(page_text("u", &None), "No page found for URL: u");
    let page = json(r#"{"title":"T","body":"B","starred":true,"last_visit_at":null}"#);
    assert_eq!(
        page_text("u", &Some(page)),
        "Title: T\nURL: u\nStarred: true\nLast visited: unknown\n\nB"
    );
    let long = Json::empty().with("body", Json::of(&"é".repeat(5000)));
    let shown = page_text("u", &Some(long));
    assert_eq!(shown.matches('é').count(), 4000);
    assert!(shown.contains("Starred: false"));
}

#[test]
fn results_are_wrapped() {
    let j = respond(Json::Unsigned(3), Ok(tool_result("hello")));
    let content = j.get("result").unwrap().list_at("content").unwrap();
    assert_eq!(content[0].text_at("type"), Some("text"));
    assert_eq!(content[0].text_at("text"), Some("hello"));
}
