use memoir::browser::HistoryItem;
use memoir::config::{LlmProvider, Settings};
use memoir::desktop::{
    autolaunch_label, embeds, menu_action, palette_url, pause_label, pick_display, startup_url,
    MenuAction,
};
use memoir::fetch::extract::ExtractedPage;
use memoir::fetch::recipe::RecipeCard;
use memoir::fetch::FetchResult;
use memoir::index::query::PageEntry;
use memoir::index::search::{SearchResult, WeeklyEntry};
use memoir::index::store::FetchStatus;
use memoir::json::parse_json;
use memoir::paths::Platform;
use memoir::rag::talk::TalkEvent;
use memoir::rag::LlmClient;
use memoir::score::Number;
use memoir::server::answers::{
    ask_answer, ask_failure, ask_sources, chat_history, chat_reply, chat_reply_of, dedup,
    first_tool_calls, last_user, markdown_to_html, no_sources, tool_use, ToolUse,
};
use memoir::server::chat::{chat_step, ChatAction, ChatEvent, ChatQuestion, ChatStage};
use memoir::server::digest::{digest_begin, digest_step, hours_label, Digest, DigestAction};
use memoir::server::flow::{
    ask_step, search_step, AskAction, AskEvent, AskStage, Question, SearchAction, SearchEvent,
    SearchStage,
};
use memoir::server::handlers::{
    autocomplete_query, embedding_text, export_markdown, filter_recent, first_body, import_pairs,
    may_open, merge_results, recent_fetch_limit, recipe_range, recipe_scan_line, recipe_step,
    requeue_line, search_line, shown_system_prompt, sync_status, thread_name, thread_url,
    urls_to_look_up, weekly_groups, RecipeStep,
};
use memoir::server::indexing::{page_step, PageAction, PageEvent, PagePlan, PageStage};
use memoir::server::setup::{
    browser_candidates, detected, firefox_path, firefox_profiles_dir, probe_result,
    probe_targets, quote, setup_config,
};
use memoir::server::{
    default_ask_k, default_cluster_days, default_digest_hours, default_limit, default_page_limit,
    is_newer_version, latest_release, AskSource, ChatTurn, ImportItem, SetupPayload,
};
use memoir::session_log::LogKind;
use memoir::time::Timestamp;

fn strings(list: &[&str]) -> Vec<String> {
    list.iter().map(|s| s.to_string()).collect()
}

fn pair(a: &str, b: &str) -> (String, String) {
    (a.to_string(), b.to_string())
}

#[test]
fn defaults_hold_where_nothing_is_asked() {
    assert_eq!(default_limit(), 20);
    assert_eq!(default_ask_k(), 5);
    assert_eq!(default_page_limit(), 50);
    assert_eq!(default_cluster_days(), 14);
    assert_eq!(default_digest_hours(), 24);
    assert_eq!(recipe_range(None, None), (50, 0));
    assert_eq!(recipe_range(Some(3), Some(4)), (3, 4));
}

#[test]
fn versions_are_compared_by_number() {
    assert!(is_newer_version("v1.10.0", "1.9.9"));
    assert!(is_newer_version("1.0.1", "v1.0.0"));
    assert!(!is_newer_version("1.0.0", "1.0.0"));
    assert!(!is_newer_version("1.0", "0.0.1"));
    assert!(!is_newer_version("1.0.0.1", "0.0.1"));
    assert!(!is_newer_version("1.0.0-rc", "0.0.1"));
    assert!(!is_newer_version("2.0.0", "unknown"));
}

#[test]
fn a_newer_release_is_an_update() {
    let release = parse_json(r#"{"tag_name":"v2.0.0","html_url":"https://x.org/r"}"#).unwrap();
    let info = latest_release(&release, "1.0.0").unwrap();
    assert_eq!((info.version.as_str(), info.url.as_str()), ("2.0.0", "https://x.org/r"));
    assert!(latest_release(&release, "2.0.0").is_none());
    assert!(latest_release(&parse_json(r#"{"tag_name":"v2.0.0"}"#).unwrap(), "1.0.0").is_none());
}

fn item(url: &str) -> HistoryItem {
    HistoryItem {
        id: 1,
        url: url.into(),
        title: None,
        host: String::new(),
        last_visit_time: Timestamp { secs: 0, nanos: 0 },
        visit_count: 1,
    }
}

#[test]
fn banned_pages_are_not_shown() {
    assert_eq!(recent_fetch_limit(20), 80);
    let items = vec![item("https://a.com"), item("https://b.com"), item("https://c.com"), item("https://d.com")];
    let shown = filter_recent(items, &strings(&["a.com"]), &strings(&["c.com"]), 1);
    assert_eq!(shown.len(), 1);
    assert_eq!(shown[0].url, "https://b.com");
}

fn weekly(url: &str, host: &str) -> WeeklyEntry {
    WeeklyEntry {
        url: url.into(),
        title: String::new(),
        snippet: String::new(),
        host: host.into(),
        last_visit_at: None,
    }
}

#[test]
fn new_hosts_lead_the_week() {
    let list = vec![
        weekly("1", "old.com"),
        weekly("2", "old.com"),
        weekly("3", "new.com"),
        weekly("4", "big.com"),
        weekly("5", "big.com"),
        weekly("6", "big.com"),
        weekly("7", "fresh.com"),
        weekly("8", "fresh.com"),
    ];
    let prior = vec![("old.com".to_string(), 2), ("big.com".to_string(), 7)];
    let groups = weekly_groups(&list, &prior);
    let hosts: Vec<&str> = groups.iter().map(|g| g.host.as_str()).collect();
    assert_eq!(hosts, vec!["fresh.com", "new.com", "big.com", "old.com"]);
    assert!(groups[0].is_new && !groups[2].is_new);
    assert_eq!(groups[2].prior_count, 7);
    let urls: Vec<&str> = groups[2].pages.iter().map(|p| p.url.as_str()).collect();
    assert_eq!(urls, vec!["4", "5", "6"]);
}

fn hit(url: &str, snippet: &str) -> SearchResult {
    SearchResult {
        url: url.into(),
        title: String::new(),
        snippet: snippet.into(),
        rank: Number { bits: 0 },
        first_visit_at: None,
        last_visit_at: None,
        starred: false,
    }
}

#[test]
fn results_found_by_meaning_and_words_lead() {
    let by_meaning = strings(&["c", "x", "a", "c"]);
    let by_words = vec![hit("a", "A"), hit("b", "B"), hit("c", "C")];
    assert_eq!(urls_to_look_up(&by_meaning, &by_words), strings(&["x"]));
    let merged = merge_results(&by_meaning, &by_words, &vec![hit("x", ""), hit("y", "")], 10);
    let urls: Vec<&str> = merged.iter().map(|r| r.url.as_str()).collect();
    assert_eq!(urls, vec!["c", "a", "x", "y", "b"]);
    assert_eq!(merged[0].snippet, "C");
    assert_eq!(merge_results(&by_meaning, &by_words, &Vec::new(), 2).len(), 2);
    let again = merge_results(&by_meaning, &by_words, &vec![hit("x", ""), hit("x", ""), hit("c", "")], 10);
    let urls: Vec<&str> = again.iter().map(|r| r.url.as_str()).collect();
    assert_eq!(urls, vec!["c", "a", "x", "b"]);
    let alone = merge_results(&strings(&["x"]), &Vec::new(), &vec![hit("x", "")], 10);
    assert_eq!(alone[0].url, "x");
}

#[test]
fn searches_are_logged() {
    let line = search_line("rust", 3);
    assert_eq!(line.kind, LogKind::Search);
    assert_eq!(line.message, "rust");
    assert_eq!(line.detail.as_deref(), Some("3 result(s)"));
}

#[test]
fn blank_texts_are_not_completed() {
    assert_eq!(autocomplete_query("  ru "), Some("ru".to_string()));
    assert_eq!(autocomplete_query(" \t"), None);
    assert_eq!(thread_name(" n "), Some("n".to_string()));
    assert_eq!(thread_name(""), None);
    assert!(thread_url("u") && !thread_url(""));
}

#[test]
fn given_sources_are_taken_as_they_are() {
    let given = vec![AskSource { url: "u".into(), title: "t".into() }];
    let found = vec![pair("v", "w")];
    assert_eq!(ask_sources(&given, &found, &found), vec![pair("u", "t")]);
    assert_eq!(ask_sources(&Vec::new(), &found, &found), vec![pair("v", "w")]);
}

#[test]
fn answers_are_logged_with_their_start() {
    let sources = vec![pair("u1", ""), pair("u2", ""), pair("u3", ""), pair("u4", "")];
    let (answer, line) = ask_answer("q", "é".repeat(400), &sources);
    assert_eq!(answer.answer, "é".repeat(400));
    assert_eq!(answer.sources, strings(&["u1", "u2", "u3", "u4"]));
    assert_eq!(line.kind, LogKind::Llm);
    assert_eq!(line.detail, Some(format!("{}\n\nSources: u1, u2, u3", "é".repeat(300))));
    let (none, line) = no_sources("q");
    assert_eq!(none.answer, "No relevant pages found.");
    assert!(none.sources.is_empty());
    assert_eq!(line.detail.as_deref(), Some("No relevant pages found"));
    let line = ask_failure("q", "down".into());
    assert_eq!(line.message, "LLM error for query: q");
    assert_eq!((line.kind, line.detail.as_deref()), (LogKind::Error, Some("down")));
}

fn question(given: Vec<AskSource>) -> Question {
    Question {
        q: "why?".into(),
        k: 5,
        given,
        max_context_chars: 100,
        system_prompt: None,
        date: "2026-05-01".into(),
    }
}

#[test]
fn a_question_is_answered_in_steps() {
    let q = question(Vec::new());
    let (stage, action) = ask_step(&q, AskStage::Begin, AskEvent::Started);
    assert!(matches!(&action, AskAction::Search { q, k: 5 } if q == "why?"));
    let hits = AskEvent::Hits { by_meaning: vec![pair("u", "T")], by_words: vec![pair("u", "T")] };
    let (stage, action) = ask_step(&q, stage, hits);
    assert!(matches!(&action, AskAction::Read { urls } if urls == &strings(&["u"])));
    let (stage, action) = ask_step(&q, stage, AskEvent::Bodies(vec![pair("u", "text")]));
    match action {
        AskAction::Think { prompt, system } => {
            assert!(prompt.contains("<content>text</content>"));
            assert!(prompt.ends_with("Question: why?"));
            assert!(system.starts_with("The current date is 2026-05-01.\n"));
        }
        _ => panic!("the model was to be asked"),
    }
    let (_, action) = ask_step(&q, stage, AskEvent::Answer("because".into()));
    match action {
        AskAction::Finish { answer, sources } => {
            assert_eq!(answer, "because");
            assert_eq!(sources, vec![pair("u", "T")]);
        }
        _ => panic!("an answer was expected"),
    }
}

#[test]
fn a_question_can_come_to_nothing() {
    let q = question(Vec::new());
    let hits = AskEvent::Hits { by_meaning: vec![], by_words: vec![] };
    assert!(matches!(ask_step(&q, AskStage::Searching, hits).1, AskAction::NoSources));
    let failed = AskEvent::Failed("down".into());
    let stage = AskStage::Thinking(vec![pair("u", "T")]);
    assert!(matches!(ask_step(&q, stage, failed).1, AskAction::Refuse(e) if e == "down"));
    let given = question(vec![AskSource { url: "g".into(), title: "G".into() }]);
    let (_, action) = ask_step(&given, AskStage::Begin, AskEvent::Started);
    assert!(matches!(action, AskAction::Read { urls } if urls == strings(&["g"])));
}

#[test]
fn a_search_falls_back_to_the_latest_pages() {
    let none = SearchEvent::Hits { by_meaning: vec![], by_words: vec![] };
    let (stage, action) = search_step(4, 100, SearchStage::Searching, none);
    assert!(matches!(action, SearchAction::List { limit: 4 }));
    let (stage, action) = search_step(4, 100, stage, SearchEvent::Latest(vec![pair("u", "T")]));
    assert!(matches!(&action, SearchAction::Read { urls } if urls == &strings(&["u"])));
    let (_, action) = search_step(4, 100, stage, SearchEvent::Bodies(vec![]));
    match action {
        SearchAction::Finish { xml, urls } => {
            assert!(xml.contains("<url>u</url>"));
            assert_eq!(urls, strings(&["u"]));
        }
        _ => panic!("a result was expected"),
    }
    let (_, action) = search_step(4, 100, SearchStage::Listing, SearchEvent::Latest(vec![]));
    assert!(matches!(action, SearchAction::Finish { xml, urls } if xml.is_empty() && urls.is_empty()));
}

fn turn(role: &str, content: &str) -> ChatTurn {
    ChatTurn { role: role.into(), content: content.into() }
}

#[test]
fn the_last_message_of_the_user_counts() {
    let turns = vec![turn("user", "a"), turn("user", "b"), turn("assistant", "c")];
    assert_eq!(last_user(&turns), Some("b".to_string()));
    assert_eq!(last_user(&vec![turn("assistant", "c")]), None);
    assert_eq!(chat_history(&turns)[2], pair("assistant", "c"));
}

#[test]
fn tools_are_used_by_name() {
    let args = parse_json(r#"{"query":"q","url":"u"}"#).unwrap();
    let (u, call) = tool_use("search_history", &args);
    assert!(matches!(u, ToolUse::Search(q) if q == "q"));
    assert_eq!((call.tool.as_str(), call.arg.as_str()), ("search_history", "q"));
    assert!(matches!(tool_use("get_page", &args).0, ToolUse::Page(u) if u == "u"));
    let (u, call) = tool_use("other", &args);
    assert!(matches!(u, ToolUse::Nothing));
    assert_eq!(call.arg, "");
    assert_eq!(first_tool_calls("last", "xml").len(), 1);
    assert!(first_tool_calls("last", "").is_empty());
}

#[test]
fn replies_are_shown_as_html() {
    let (reply, line) = chat_reply(
        "last",
        "**b** ~~s~~\n\n|a|\n|-|\n|1|\n".into(),
        strings(&["u", "u"]),
        strings(&["u", "v", "u"]),
        Vec::new(),
    );
    assert!(reply.answer.starts_with("<p><strong>b</strong> <del>s</del></p>"));
    assert!(reply.answer.contains("<table>"));
    assert_eq!(reply.sources, strings(&["u", "v", "u"]));
    assert_eq!(line.message, "last");
    let (plain, _) = chat_reply_of("l", "h".into(), "m".into(), vec![], vec![], vec![]);
    assert_eq!((plain.answer.as_str(), plain.answer_md.as_str()), ("h", "m"));
    assert_eq!(dedup(&strings(&["a", "a", "b", "a"])), strings(&["a", "b", "a"]));
}

#[test]
fn hours_are_put_in_words() {
    assert_eq!(hours_label(1), "1 hour");
    assert_eq!(hours_label(24), "24 hours");
    assert_eq!(hours_label(72), "3 days");
    assert_eq!(hours_label(168), "7 days");
    assert_eq!(hours_label(48), "2 days");
    assert_eq!(hours_label(5), "5 hours");
    assert_eq!(hours_label(0), "0 days");
}

#[test]
fn a_digest_of_nothing_is_finished_at_once() {
    let (_, notices, action) = digest_begin(24, Vec::new());
    assert!(notices.is_empty());
    match action {
        DigestAction::Finish { md, html } => {
            assert_eq!(md, "No indexed pages found in the last 24 hours.");
            assert_eq!(html, "<p>No indexed pages found in the last 24 hours.</p>");
        }
        _ => panic!("the end was expected"),
    }
}

#[test]
fn a_digest_goes_through_its_batches() {
    let pages: Vec<(String, String)> =
        (0..12).map(|i| (format!(" T{i} "), format!("line\nbreak {i} "))).collect();
    let (d, notices, action) = digest_begin(72, pages);
    assert_eq!(notices, strings(&["Found 12 pages in the last 3 days…", "Summarizing batch 1 of 2…"]));
    match action {
        DigestAction::Ask { prompt, .. } => {
            assert!(prompt.starts_with("[1] Title: \"T0\" — Excerpt: \"line break 0\"\n[2] "));
            assert_eq!(prompt.lines().count(), 10);
        }
        _ => panic!("a question was expected"),
    }
    let (d, notices, action) = digest_step(d, Ok("s1".into()), &None);
    assert_eq!(notices, strings(&["Summarizing batch 2 of 2…"]));
    assert!(matches!(action, DigestAction::Ask { prompt, .. } if prompt.lines().count() == 2));
    let (d, notices, action) = digest_step(d, Ok("s2".into()), &Some("own".into()));
    assert_eq!(notices, strings(&["Writing digest…"]));
    match action {
        DigestAction::Ask { system, prompt } => {
            assert_eq!(system, "own");
            assert_eq!(
                prompt,
                "Browsing digest — last 3 days (12 pages total):\n\n**Batch 1:**\ns1\n\n**Batch 2:**\ns2"
            );
        }
        _ => panic!("a question was expected"),
    }
    let (_, _, action) = digest_step(d, Ok("*x*".into()), &None);
    assert!(matches!(action, DigestAction::Finish { html, .. } if html == "<p><em>x</em></p>\n"));
}

#[test]
fn a_digest_can_fail() {
    let d = || Digest { hours: 1, pages: vec![pair("T", "S")], summaries: Vec::new() };
    let (_, _, action) = digest_step(d(), Err("e".into()), &None);
    assert!(matches!(action, DigestAction::Fail(m) if m == "Batch 1 failed: e"));
    let (d, _, _) = digest_step(d(), Ok("s".into()), &None);
    let (_, _, action) = digest_step(d, Err("e".into()), &None);
    assert!(matches!(action, DigestAction::Fail(m) if m == "Synthesis failed: e"));
}

#[test]
fn browsers_are_looked_for_by_platform() {
    let mac = browser_candidates(Platform::Macos, "/Users/u", &None, "/f".into());
    let kinds: Vec<&str> = mac.iter().map(|c| c.kind.as_str()).collect();
    assert_eq!(kinds, vec!["orion", "safari", "chrome", "brave", "arc", "edge", "firefox"]);
    assert_eq!(mac[1].path, "/Users/u/Library/Safari/History.db");
    let linux = browser_candidates(Platform::Linux, "/home/u", &None, "/f".into());
    assert_eq!(linux[2].path, "/home/u/.config/chromium/Default/History");
    assert_eq!(linux.len(), 5);
    let windows = browser_candidates(Platform::Windows, "C:\\Users\\u", &None, "f".into());
    assert_eq!(
        windows[0].path,
        "C:\\Users\\u\\AppData/Local\\Google/Chrome/User Data/Default/History"
    );
    let local = Some("D:\\L\\".to_string());
    let windows = browser_candidates(Platform::Windows, "C:\\Users\\u", &local, "f".into());
    assert_eq!(windows[2].path, "D:\\L\\Chromium/User Data/Default/History");
    assert_eq!(browser_candidates(Platform::Other, "/h", &None, "/f".into()).len(), 1);
    let d = detected(browser_candidates(Platform::Other, "/h", &None, "/f".into()).pop().unwrap(), true);
    assert_eq!((d.name.as_str(), d.path.as_str(), d.exists), ("Firefox", "/f", true));
}

#[test]
fn the_newest_firefox_profile_is_taken() {
    let dir = firefox_profiles_dir(Platform::Linux, "/home/u", &None);
    assert_eq!(dir, "/home/u/.mozilla/firefox");
    assert_eq!(firefox_path(Platform::Linux, &dir, &Vec::new()), "/home/u/.mozilla/firefox/default/places.sqlite");
    let profiles = vec![(5, "a".to_string()), (9, "b".to_string()), (9, "c".to_string()), (1, "d".to_string())];
    assert_eq!(firefox_path(Platform::Linux, &dir, &profiles), "c");
    assert_eq!(
        firefox_profiles_dir(Platform::Windows, "C:\\u", &Some("R".into())),
        "R\\Mozilla/Firefox/Profiles"
    );
}

#[test]
fn servers_are_tried_at_three_places() {
    let targets = probe_targets("http://h:1//");
    assert_eq!(targets[0], pair("/v1/models", "http://h:1/v1/models"));
    assert_eq!(targets[2].1, "http://h:1/health");
    assert_eq!(probe_result(Some("/health".into())).message, "Connected (/health)");
    let none = probe_result(None);
    assert!(!none.ok);
    assert_eq!(none.message, "Could not reach LLM server");
}

fn payload() -> SetupPayload {
    SetupPayload {
        browser_path: "C:\\a \"b\"".into(),
        browser_kind: String::new(),
        data_dir: "/d".into(),
        llm_base_url: "http://h".into(),
        llm_model: "m".into(),
        llm_provider: String::new(),
        llm_api_key: Some(String::new()),
        sync_interval_mins: None,
    }
}

#[test]
fn a_configuration_is_written() {
    assert_eq!(
        setup_config(&payload()),
        "[browser]\nhistory_db_path = \"C:\\\\a \\\"b\\\"\"\nkind = \"chromium\"\n\n[data]\ndir = \"/d\"\n\n\
         [llm]\nprovider = \"lm_studio\"\nbase_url = \"http://h\"\nmodel = \"m\"\n\n[sync]\ninterval_mins = 60\n"
    );
    let mut p = payload();
    p.llm_api_key = Some("k\"".into());
    p.llm_provider = "openai".into();
    p.sync_interval_mins = Some(5);
    let text = setup_config(&p);
    assert!(text.contains("provider = \"openai\"\n") && text.contains("api_key = \"k\\\"\"\n"));
    assert!(text.ends_with("interval_mins = 5\n"));
    let parsed: toml::Table = text.parse().unwrap();
    assert_eq!(parsed["browser"]["history_db_path"].as_str(), Some("C:\\a \"b\""));
    assert_eq!(quote("a\\\"b"), "a\\\\\\\"b");
}

#[test]
fn stars_are_written_as_markdown() {
    let entry = |url: &str, title: &str| PageEntry {
        url: url.into(),
        title: title.into(),
        fetch_status: FetchStatus::Fetched,
        starred: true,
    };
    assert_eq!(
        export_markdown(&vec![entry("u1", "T"), entry("u2", "")]),
        "# Starred Pages\n\n- [T](u1)\n- [u2](u2)\n"
    );
}

#[test]
fn small_questions_are_answered() {
    assert!(shown_system_prompt(&None).starts_with("You are Memoir"));
    assert_eq!(shown_system_prompt(&Some("x".into())), "x");
    assert_eq!(sync_status(0, true, 5).last_sync_at, None);
    assert_eq!(sync_status(9, false, 5).last_sync_at, Some(9));
    assert!(may_open("http://a") && may_open("https://a") && !may_open("file:///a"));
    assert_eq!(embedding_text("T", "B"), "T B");
    assert_eq!(first_body(&vec![pair("u", "b")]), "b");
    assert_eq!(first_body(&Vec::new()), "");
    let items = vec![ImportItem { url: "u".into(), title: "t".into() }];
    assert_eq!(import_pairs(&items), vec![pair("u", "t")]);
    assert_eq!(recipe_scan_line(2).message, "Recipe scan: 2 page(s) queued for LLM extraction");
    assert_eq!(requeue_line("h", 2).message, "Re-queue h: 2 page(s) marked for re-fetch");
}

#[test]
fn recipes_are_stored_queued_or_passed_over() {
    let skip = strings(&["a.com"]);
    assert_eq!(recipe_step("https://a.com/x", &skip, true, "recipe", ""), RecipeStep::Skip);
    assert_eq!(recipe_step("https://b.com/x", &skip, true, "", ""), RecipeStep::Store);
    assert_eq!(recipe_step("https://b.com/x", &skip, false, "recipe", ""), RecipeStep::Pending);
    assert_eq!(recipe_step("b.com", &skip, false, "", ""), RecipeStep::Absent);
}

#[test]
fn the_desktop_shows_the_right_page() {
    assert_eq!(startup_url(3000, true), "http://127.0.0.1:3000/");
    assert_eq!(startup_url(80, false), "http://127.0.0.1:80/setup");
    assert_eq!(palette_url(80), "http://127.0.0.1:80/palette");
    assert_eq!(menu_action("index_now"), MenuAction::IndexNow);
    assert_eq!(menu_action("x"), MenuAction::Nothing);
    assert_eq!(pause_label(true), "Resume Indexing");
    assert_eq!(autolaunch_label(true), "✓ Launch at Login");
    assert_eq!(pick_display("u", "T"), "T  \x1b[2mu\x1b[0m");
    assert_eq!(pick_display("u", ""), "u");
    let mut s = Settings::default_in(Platform::Linux, "/h");
    assert!(embeds(&s));
    s.llm.provider = LlmProvider::Disabled;
    assert!(!embeds(&s));
}

fn talk_client(provider: LlmProvider) -> LlmClient {
    let mut settings = Settings::default_in(Platform::Linux, "/h").llm;
    settings.provider = provider;
    LlmClient::new(&settings, 100, &None)
}

fn json(s: &str) -> memoir::json::Json {
    parse_json(s).unwrap()
}

fn chat_question() -> ChatQuestion {
    ChatQuestion { turns: vec![turn("user", "bread?")], k: 3, date: "2026-05-01".into() }
}

#[test]
fn a_message_is_answered_with_tools() {
    for (provider, calls, answer) in [
        (
            LlmProvider::Openai,
            r#"{"choices":[{"finish_reason":"tool_calls","message":{"tool_calls":[
                {"id":"a","function":{"name":"get_page","arguments":"{\"url\":\"u2\"}"}},
                {"id":"b","function":{"name":"fly","arguments":"{}"}}]}}]}"#,
            r#"{"choices":[{"message":{"content":"*yes*"}}]}"#,
        ),
        (
            LlmProvider::Anthropic,
            r#"{"stop_reason":"tool_use","content":[
                {"type":"tool_use","id":"a","name":"get_page","input":{"url":"u2"}},
                {"type":"tool_use","id":"b","name":"fly","input":{}}]}"#,
            r#"{"content":[{"type":"text","text":"*yes*"}]}"#,
        ),
    ] {
        let client = talk_client(provider);
        let q = chat_question();
        let (stage, action) = chat_step(&client, &q, ChatStage::Begin, ChatEvent::Started);
        assert!(matches!(&action, ChatAction::Search { query, k: 3 } if query == "bread?"));
        let found = ChatEvent::Found { xml: "<x/>".into(), urls: strings(&["u1", "u2"]) };
        let (stage, action) = chat_step(&client, &q, stage, found);
        let ChatAction::Post(request) = action else { panic!("a request was expected") };
        let own = if provider == LlmProvider::Openai { 2 } else { 1 };
        assert_eq!(request.list_at("messages").unwrap().len(), own);
        let reply = ChatEvent::Talk(TalkEvent::Replied(json(calls)));
        let (stage, action) = chat_step(&client, &q, stage, reply);
        assert!(matches!(&action, ChatAction::Use(ToolUse::Page(url)) if url == "u2"));
        let result =
            ChatEvent::Talk(TalkEvent::Result { xml: "<p/>".into(), urls: strings(&["u2"]) });
        let (stage, action) = chat_step(&client, &q, stage, result);
        assert!(matches!(&action, ChatAction::Use(ToolUse::Nothing)));
        let result = ChatEvent::Talk(TalkEvent::Result { xml: String::new(), urls: vec![] });
        let (stage, action) = chat_step(&client, &q, stage, result);
        let ChatAction::Post(request) = action else { panic!("a request was expected") };
        let more = if provider == LlmProvider::Openai { 3 } else { 2 };
        assert_eq!(request.list_at("messages").unwrap().len(), own + more);
        let reply = ChatEvent::Talk(TalkEvent::Replied(json(answer)));
        let (_, action) = chat_step(&client, &q, stage, reply);
        let ChatAction::Finish { reply, line } = action else { panic!("an answer was expected") };
        assert_eq!(reply.answer, "<p><em>yes</em></p>\n");
        assert_eq!(reply.sources, strings(&["u1", "u2"]));
        let tools: Vec<(&str, &str)> =
            reply.tool_calls.iter().map(|c| (c.tool.as_str(), c.arg.as_str())).collect();
        assert_eq!(tools, vec![("search_history", "bread?"), ("get_page", "u2"), ("fly", "")]);
        assert_eq!(line.detail.as_deref(), Some("*yes*\n\nSources: u1, u2"));
    }
}

#[test]
fn a_message_can_go_without_an_answer() {
    let client = talk_client(LlmProvider::Openai);
    let nobody = ChatQuestion { turns: vec![turn("assistant", "hi")], ..chat_question() };
    let (_, action) = chat_step(&client, &nobody, ChatStage::Begin, ChatEvent::Started);
    assert!(matches!(action, ChatAction::BadRequest));

    let q = chat_question();
    let found = || ChatEvent::Found { xml: String::new(), urls: vec![] };
    let disabled = talk_client(LlmProvider::Disabled);
    let (_, action) = chat_step(&disabled, &q, ChatStage::Searching("bread?".into()), found());
    assert!(matches!(action, ChatAction::Refuse(e) if e == "LLM is disabled (provider = \"none\")"));

    let (mut stage, mut action) =
        chat_step(&client, &q, ChatStage::Searching("bread?".into()), found());
    let mut requests = 0;
    while matches!(action, ChatAction::Post(_)) {
        requests += 1;
        let reply = r#"{"choices":[{"finish_reason":"tool_calls","message":{}}]}"#;
        let event = ChatEvent::Talk(TalkEvent::Replied(json(reply)));
        (stage, action) = chat_step(&client, &q, stage, event);
    }
    assert_eq!(requests, 8);
    assert!(matches!(stage, ChatStage::Finished));
    assert!(
        matches!(action, ChatAction::Refuse(e) if e == "tool call loop exceeded maximum iterations")
    );
}

fn fetched(title: &str, recipe: bool) -> PageEvent {
    let recipe = if recipe {
        Some(RecipeCard {
            name: "Bread".into(),
            ingredients: strings(&["flour"]),
            instructions: strings(&["bake"]),
            prep_time: None,
            cook_time: None,
            servings: None,
            image_url: None,
        })
    } else {
        None
    };
    PageEvent::Fetched(FetchResult::Page(ExtractedPage {
        title: title.into(),
        body: "B".into(),
        recipe,
    }))
}

#[test]
fn a_page_is_taken_in_at_once() {
    let plan = PagePlan { url: "https://a.com/x".into(), recipes: true, embeds: true };
    let (stage, action) = page_step(&plan, PageStage::Begin, PageEvent::Started);
    assert!(matches!(&action, PageAction::Fetch { url } if url == "https://a.com/x"));
    let (stage, action) = page_step(&plan, stage, fetched("T", true));
    assert!(matches!(&action, PageAction::Store { title, body, .. } if title == "T" && body == "B"));
    let (stage, action) = page_step(&plan, stage, PageEvent::Done);
    assert!(matches!(action, PageAction::ListSkipHosts));
    let (stage, action) = page_step(&plan, stage, PageEvent::SkipHosts(strings(&["b.com"])));
    assert!(matches!(&action, PageAction::StoreRecipe { card, .. } if card.name == "Bread"));
    let (stage, action) = page_step(&plan, stage, PageEvent::Done);
    assert!(matches!(&action, PageAction::Embed { text } if text == "T B"));
    let (stage, action) = page_step(&plan, stage, PageEvent::Embedded(Some(vec![1])));
    assert!(matches!(&action, PageAction::StoreEmbedding { bytes, .. } if bytes == &vec![1]));
    let (stage, action) = page_step(&plan, stage, PageEvent::Done);
    assert!(matches!(action, PageAction::Finish));
    assert!(matches!(stage, PageStage::Finished));
}

#[test]
fn a_page_is_taken_in_as_far_as_asked() {
    let plan = PagePlan { url: "https://a.com/x".into(), recipes: false, embeds: false };
    let (stage, _) = page_step(&plan, PageStage::Fetching, fetched("T", true));
    let (_, action) = page_step(&plan, stage, PageEvent::Done);
    assert!(matches!(action, PageAction::Finish));
    let walled = PageEvent::Fetched(FetchResult::AuthWall);
    let (_, action) = page_step(&plan, PageStage::Fetching, walled);
    assert!(matches!(action, PageAction::GiveUp));

    let plan = PagePlan { recipes: true, ..plan };
    let status = |title: &str, hosts: &[&str]| {
        let (stage, _) = page_step(&plan, PageStage::Fetching, fetched(title, false));
        let (stage, _) = page_step(&plan, stage, PageEvent::Done);
        match page_step(&plan, stage, PageEvent::SkipHosts(strings(hosts))).1 {
            PageAction::SetRecipeStatus { status, .. } => status,
            _ => String::new(),
        }
    };
    assert_eq!(status("Bread recipe", &[]), "pending");
    assert_eq!(status("News", &[]), "none");
    assert_eq!(status("Bread recipe", &["a.com"]), "");
}

#[test]
fn markdown_is_written_with_tables_and_struck_words() {
    assert_eq!(markdown_to_html("~~s~~"), "<p><del>s</del></p>\n");
    assert!(markdown_to_html("|a|\n|-|\n|1|\n").starts_with("<table>"));
    assert_eq!(markdown_to_html("- [x] done"), "<ul>\n<li>[x] done</li>\n</ul>\n");
}
