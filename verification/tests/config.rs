use memoir::config::{
    expand_tilde, host_from_url, is_ip, matches_ban_pattern, suggested_ban_list,
    BrowserKind, EmbedModel, FetchSettings, LlmProvider, Settings, SyncSettings,
};
use memoir::paths::{join_path, Platform};

fn settings() -> Settings {
    Settings::default_in(Platform::Linux, "/home/user")
}

fn banned(entries: &[&str]) -> FetchSettings {
    FetchSettings {
        ban: entries.iter().map(|s| s.to_string()).collect(),
        ..Default::default()
    }
}

// --- Ban pattern tests ---

#[test]
fn exact_domain_is_banned() {
    let f = banned(&["gmail.com"]);
    assert!(f.is_banned("https://gmail.com/mail/u/0/"));
}

#[test]
fn subdomain_is_banned() {
    let f = banned(&["gmail.com"]);
    assert!(f.is_banned("https://m.gmail.com/"));
}

#[test]
fn unrelated_domain_is_not_banned() {
    let f = banned(&["gmail.com"]);
    assert!(!f.is_banned("https://notgmail.com/"));
}

#[test]
fn empty_ban_list_never_bans() {
    let f = FetchSettings::default();
    assert!(!f.is_banned("https://gmail.com/"));
}

#[test]
fn port_is_stripped_before_matching() {
    let f = banned(&["example.com"]);
    assert!(f.is_banned("http://example.com:8080/path"));
}

#[test]
fn deep_subdomain_is_banned() {
    let f = banned(&["google.com"]);
    assert!(f.is_banned("https://mail.accounts.google.com/"));
}

#[test]
fn ip_address_exact_match() {
    let f = banned(&["127.0.0.1"]);
    assert!(f.is_banned("http://127.0.0.1/"));
    assert!(f.is_banned("http://127.0.0.1/some/path?q=1"));
}

#[test]
fn ip_address_port_stripped() {
    let f = banned(&["127.0.0.1"]);
    assert!(f.is_banned("http://127.0.0.1:8080/"));
}

#[test]
fn ip_address_no_spurious_suffix_match() {
    // "0.1" must NOT match 127.0.0.1 via the subdomain ends_with logic.
    let f = banned(&["0.1"]);
    assert!(!f.is_banned("http://127.0.0.1/"));
}

#[test]
fn different_ip_not_banned() {
    let f = banned(&["127.0.0.1"]);
    assert!(!f.is_banned("http://192.168.1.1/"));
}

// --- path-prefix bans ---

#[test]
fn path_prefix_blocks_matching_org() {
    let f = banned(&["github.com/mycompany"]);
    assert!(f.is_banned("https://github.com/mycompany/private-repo"));
    assert!(f.is_banned("https://github.com/mycompany/private-repo/issues/1"));
}

#[test]
fn path_prefix_does_not_block_sibling_org() {
    let f = banned(&["github.com/mycompany"]);
    assert!(!f.is_banned("https://github.com/mycompany-public/repo"));
    assert!(!f.is_banned("https://github.com/otherorg/repo"));
}

#[test]
fn path_prefix_blocks_exact_url() {
    let f = banned(&["github.com/mycompany"]);
    assert!(f.is_banned("https://github.com/mycompany"));
}

#[test]
fn path_prefix_blocks_with_query_string() {
    let f = banned(&["github.com/mycompany"]);
    assert!(f.is_banned("https://github.com/mycompany?tab=repositories"));
}

#[test]
fn path_prefix_allows_rest_of_host() {
    let f = banned(&["github.com/mycompany"]);
    assert!(!f.is_banned("https://github.com/"));
    assert!(!f.is_banned("https://github.com/torvalds/linux"));
}

// --- host_from_url tests ---

#[test]
fn host_from_url_https() {
    assert_eq!(host_from_url("https://example.com/path"), "example.com");
}

#[test]
fn host_from_url_http() {
    assert_eq!(host_from_url("http://example.com/path"), "example.com");
}

#[test]
fn host_from_url_with_port() {
    assert_eq!(host_from_url("http://example.com:8080/path"), "example.com");
}

#[test]
fn host_from_url_subdomain() {
    assert_eq!(
        host_from_url("https://sub.example.com/path"),
        "sub.example.com"
    );
}

#[test]
fn host_from_url_query_string() {
    assert_eq!(host_from_url("https://example.com?q=test"), "example.com");
}

#[test]
fn host_from_url_fragment() {
    assert_eq!(host_from_url("https://example.com#section"), "example.com");
}

// --- Settings validation tests ---

#[test]
fn valid_settings_pass_validation() {
    let settings = settings();
    assert!(settings.validate().is_ok());
}

#[test]
fn zero_sync_interval_fails_validation() {
    let mut settings = settings();
    settings.sync.interval_mins = 0;
    assert!(settings.validate().is_err());
}

#[test]
fn zero_fetch_timeout_fails_validation() {
    let mut settings = settings();
    settings.fetch.timeout_secs = 0;
    let result = settings.validate();
    assert!(result.is_err());
    if let Err(errors) = result {
        assert!(errors.iter().any(|e| e.contains("fetch timeout")));
    }
}

#[test]
fn zero_max_retries_fails_validation() {
    let mut settings = settings();
    settings.fetch.max_retries = 0;
    assert!(settings.validate().is_err());
}

#[test]
fn zero_port_fails_validation() {
    let mut settings = settings();
    settings.application.port = 0;
    assert!(settings.validate().is_err());
}

#[test]
fn multiple_validation_errors_returned() {
    let mut settings = settings();
    settings.sync.interval_mins = 0;
    settings.fetch.timeout_secs = 0;
    let result = settings.validate();
    assert!(result.is_err());
    if let Err(errors) = result {
        assert!(errors.len() >= 2);
    }
}

// --- Further cases ---

#[test]
fn defaults_are_those_documented() {
    let s = settings();
    assert_eq!(s.application.host, "127.0.0.1");
    assert_eq!(s.application.port, 3000);
    assert_eq!(s.application.ui_poll_secs, 30);
    assert_eq!(s.application.custom_css, "");
    assert_eq!(s.application.hotkey, "CmdOrCtrl+Shift+Space");
    assert_eq!(f64::from_bits(s.application.cluster_score_high.bits), 0.65);
    assert_eq!(s.browser.kind, BrowserKind::Orion);
    assert_eq!(
        s.browser.history_db_path,
        "/home/user/Library/Application Support/Orion/Defaults/history"
    );
    assert_eq!(s.data.dir, "/home/user/.memoir");
    assert_eq!(s.fetch.delay_ms, 200);
    assert_eq!(s.fetch.timeout_secs, 15);
    assert_eq!(s.fetch.user_agent, "memoir/0.1 (personal history indexer)");
    assert!(s.fetch.ban.is_empty());
    assert_eq!(s.fetch.max_retries, 3);
    assert_eq!(s.llm.provider, LlmProvider::LmStudio);
    assert_eq!(s.llm.base_url, "http://localhost:1234");
    assert_eq!(s.llm.model, "local-model");
    assert_eq!(s.llm.max_context_chars, 8000);
    assert!(s.llm.api_key.is_none() && s.llm.system_prompt.is_none());
    assert_eq!((s.sync.interval_mins, s.sync.fetch_batch, s.sync.embed_batch), (60, 500, 200));
    assert!(s.embed.enabled && s.embed.vector_search);
    assert_eq!(s.embed.model, EmbedModel::BgeSmallEnV15);
}

#[test]
fn every_error_is_reported_in_order() {
    let mut s = settings();
    s.sync.interval_mins = 0;
    s.fetch.timeout_secs = 0;
    s.fetch.max_retries = 0;
    s.application.port = 0;
    assert_eq!(
        s.validate().unwrap_err(),
        vec![
            "sync interval cannot be zero",
            "fetch timeout cannot be zero",
            "fetch max_retries cannot be zero",
            "application port cannot be zero",
        ]
    );
}

#[test]
fn invalid_settings_stay_in_force_with_warnings() {
    let mut s = settings();
    s.application.port = 0;
    let (kept, warnings) = Settings::load_from(Platform::Linux, Some(s), "/home/user");
    assert_eq!(kept.application.port, 0);
    assert_eq!(warnings, vec!["application port cannot be zero"]);
    let (defaults, none) = Settings::load_from(Platform::Linux, None, "/home/user");
    assert_eq!(defaults.application.port, 3000);
    assert!(none.is_empty());
}

#[test]
fn a_tilde_is_expanded_at_the_front_only() {
    assert_eq!(expand_tilde(Platform::Linux, "~", "/home/user"), "/home/user");
    assert_eq!(expand_tilde(Platform::Linux, "~/x/y", "/home/user"), "/home/user/x/y");
    assert_eq!(expand_tilde(Platform::Linux, "~/x", "/"), "/x");
    assert_eq!(expand_tilde(Platform::Linux, "~other/x", "/home/user"), "~other/x");
    assert_eq!(expand_tilde(Platform::Linux, "/etc/~", "/home/user"), "/etc/~");
    assert_eq!(expand_tilde(Platform::Linux, "~//abs", "/home/user"), "/abs");
}

#[test]
fn paths_are_joined_with_one_separator() {
    assert_eq!(join_path(Platform::Linux, "/a", "b"), "/a/b");
    assert_eq!(join_path(Platform::Linux, "/a/", "b"), "/a/b");
    assert_eq!(join_path(Platform::Linux, "", "b"), "b");
    assert_eq!(join_path(Platform::Linux, "/a", "/b"), "/b");
}

#[test]
fn the_configuration_directory_can_be_chosen() {
    assert_eq!(Settings::config_dir(Platform::Linux, Some("~/conf"), "/home/user"), "/home/user/conf");
    assert_eq!(Settings::config_dir(Platform::Linux, None, "/home/user"), "/home/user/.memoir");
}

#[test]
fn the_pause_is_never_less_than_a_minute() {
    let mut s = SyncSettings::default();
    assert_eq!(s.sleep_secs(), 3600);
    s.interval_mins = 0;
    assert_eq!(s.sleep_secs(), 60);
}

#[test]
fn addresses_are_told_from_names() {
    assert!(is_ip("192.168.1.1"));
    assert!(is_ip("[::1]"));
    assert!(is_ip(""));
    assert!(!is_ip("1.example"));
}

#[test]
fn lookalikes_are_spared() {
    assert!(!matches_ban_pattern("https://evilgmail.com/", "gmail.com"));
    assert!(matches_ban_pattern("https://a.b.gmail.com/", "gmail.com"));
    assert!(!matches_ban_pattern("https://github.com/mycompany-public", "github.com/mycompany"));
    assert!(matches_ban_pattern("http://github.com/mycompany#readme", "github.com/mycompany"));
}

#[test]
fn a_port_without_digits_goes_and_one_with_letters_stays() {
    assert_eq!(host_from_url("http://h:/x"), "h");
    assert_eq!(host_from_url("http://h:8a/x"), "h:8a");
    assert_eq!(host_from_url("ftp://h/x"), "ftp");
    assert_eq!(host_from_url("https://x.org:1/a"), host_from_url("http://x.org:1/a"));
}

#[test]
fn the_suggested_bans_cover_mail_and_streams() {
    let list = suggested_ban_list();
    assert_eq!(list.len(), 28);
    assert_eq!(list[0], "mail.google.com");
    assert_eq!(list[27], "paramountplus.com");
    let f = FetchSettings { ban: list, ..Default::default() };
    assert!(f.is_banned("https://mail.google.com/mail"));
    assert!(!f.is_banned("https://google.com/search"));
}

fn on_windows(dir: &str, path: &str) -> String {
    join_path(Platform::Windows, dir, path)
}

#[test]
fn paths_are_joined_as_on_windows() {
    assert_eq!(on_windows(r"C:\Users\u", ".memoir"), r"C:\Users\u\.memoir");
    assert_eq!(on_windows(r"C:\Users\u", "AppData/Local"), r"C:\Users\u\AppData/Local");
    assert_eq!(on_windows(r"C:\", "b"), r"C:\b");
    assert_eq!(on_windows("C:/", "b"), "C:/b");
    assert_eq!(on_windows("C:", "b"), "C:b");
    assert_eq!(on_windows("", "b"), "b");
    assert_eq!(on_windows("a", ""), r"a\");
    assert_eq!(on_windows(r"C:\a", r"D:\b"), r"D:\b");
    assert_eq!(on_windows(r"C:\a", "D:b"), "D:b");
    assert_eq!(on_windows(r"C:\a", r"\\srv\share\x"), r"\\srv\share\x");
    assert_eq!(on_windows(r"C:\a", r"\\.\COM1"), r"\\.\COM1");
    assert_eq!(on_windows(r"C:\a", r"\windows"), r"C:\windows");
    assert_eq!(on_windows(r"C:\a", "/windows"), "C:/windows");
    assert_eq!(on_windows(r"\\srv\share\a\b", r"\x"), r"\\srv\share\x");
    assert_eq!(on_windows("a", r"\x"), r"\x");
    assert_eq!(expand_tilde(Platform::Windows, r"~/C:\x", r"C:\u"), r"C:\x");
    assert_eq!(expand_tilde(Platform::Windows, r"~/\x", r"C:\u"), r"C:\x");
}

#[test]
fn paths_are_joined_behind_verbatim_directories() {
    assert_eq!(on_windows(r"\\?\C:\u", "AppData/Local"), r"\\?\C:\u\AppData\Local");
    assert_eq!(on_windows(r"\\?\C:\u", r".\a\..\b"), r"\\?\C:\u\b");
    assert_eq!(on_windows(r"\\?\C:\u", r"..\..\.."), r"\\?\C:\");
    assert_eq!(on_windows(r"\\?\C:\u", r"\x"), r"\\?\C:\x");
    assert_eq!(on_windows(r"\\?\C:", "x"), r"\\?\C:\x");
    assert_eq!(on_windows(r"\\?\UNC\srv\share\a", r"\x"), r"\\?\UNC\srv\share\x");
    assert_eq!(on_windows(r"\\?\cat_pics\a", "x"), r"\\?\cat_pics\a\x");
    assert_eq!(on_windows(r"\\?\C:\u", ""), r"\\?\C:\u\");
}
