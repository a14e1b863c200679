//! Settings: their defaults, their validation, and the rules on which pages are never fetched.

use vstd::prelude::*;
use vstd::string::*;

use crate::lists::push_text;
use crate::paths::{join_path, path_joined, Platform};
use crate::score::Number;
use crate::text;
use crate::text::{
    before_first, contains, ends_with, first_of, has_prefix, has_suffix, last_at, only_digits,
    rsplit_once, same_text, starts_with, strip_prefix, texts,
};

verus! {

/// A browser whose history can be read.
#[derive(Debug, Clone, Copy, PartialEq, Eq, Structural)]
pub enum BrowserKind {
    Orion,
    Chromium,
    Chrome,
    Brave,
    Arc,
    Edge,
    Firefox,
    Safari,
}

impl Default for BrowserKind {
    fn default() -> (r: Self)
        ensures
            r == BrowserKind::Orion,
    {
        BrowserKind::Orion
    }
}

/// Where answers are generated.
#[derive(Debug, Clone, Copy, PartialEq, Eq, Structural)]
pub enum LlmProvider {
    LmStudio,
    Openai,
    Anthropic,
    Disabled,
}

impl Default for LlmProvider {
    fn default() -> (r: Self)
        ensures
            r == LlmProvider::LmStudio,
    {
        LlmProvider::LmStudio
    }
}

/// A text-embedding model.
#[derive(Debug, Clone, Copy, PartialEq, Eq, Structural)]
pub enum EmbedModel {
    /// English, 384 dimensions, about 130 MB.
    BgeSmallEnV15,
    /// English, 768 dimensions, about 430 MB, higher accuracy.
    BgeBaseEnV15,
    /// English, 768 dimensions, about 270 MB, strong accuracy.
    NomicEmbedTextV15,
    /// English, 384 dimensions, about 90 MB, fastest and smallest.
    AllMiniLmL6V2,
    /// Multilingual, 384 dimensions, about 120 MB.
    MultilingualE5Small,
    /// Multilingual, 768 dimensions, about 280 MB, better accuracy.
    MultilingualE5Base,
    /// Multilingual, 384 dimensions, about 120 MB.
    ParaphraseMultilingualMiniLmL12V2,
}

impl Default for EmbedModel {
    fn default() -> (r: Self)
        ensures
            r == EmbedModel::BgeSmallEnV15,
    {
        EmbedModel::BgeSmallEnV15
    }
}

/// Semantic indexing.
#[derive(Debug, Clone, Copy)]
pub struct EmbedSettings {
    pub enabled: bool,
    pub model: EmbedModel,
    pub vector_search: bool,
}

impl Default for EmbedSettings {
    fn default() -> (r: Self)
        ensures
            r.is_default(),
    {
        EmbedSettings { enabled: true, model: EmbedModel::default(), vector_search: true }
    }
}

impl EmbedSettings {
    /// The values that hold where none is configured.
    pub open spec fn is_default(self) -> bool {
        self.enabled && self.model == EmbedModel::BgeSmallEnV15 && self.vector_search
    }
}

/// The HTTP server and its pages.
#[derive(Debug, Clone)]
pub struct ApplicationSettings {
    pub host: String,
    pub port: u16,
    pub ui_poll_secs: u64,
    pub custom_css: String,
    pub hotkey: String,
    pub cluster_score_high: Number,
}

impl ApplicationSettings {
    /// The values that hold where none is configured.
    pub open spec fn is_default(self) -> bool {
        &&& self.host@ == "127.0.0.1"@
        &&& self.port == 3000
        &&& self.ui_poll_secs == 30
        &&& self.custom_css@ == ""@
        &&& self.hotkey@ == "CmdOrCtrl+Shift+Space"@
        &&& self.cluster_score_high.bits == 0x3fe4_cccc_cccc_cccd
    }
}

impl Default for ApplicationSettings {
    fn default() -> (r: Self)
        ensures
            r.is_default(),
    {
        ApplicationSettings {
            host: "127.0.0.1".to_owned(),
            port: 3000,
            ui_poll_secs: 30,
            custom_css: "".to_owned(),
            hotkey: "CmdOrCtrl+Shift+Space".to_owned(),
            cluster_score_high: Number { bits: 0x3fe4_cccc_cccc_cccd },
        }
    }
}

/// The browser whose history is read.
#[derive(Debug, Clone)]
pub struct BrowserSettings {
    pub history_db_path: String,
    pub kind: BrowserKind,
}

/// Where the index is kept.
#[derive(Debug, Clone)]
pub struct DataSettings {
    pub dir: String,
}

/// How pages are fetched.
#[derive(Debug, Clone)]
pub struct FetchSettings {
    pub delay_ms: u64,
    pub timeout_secs: u64,
    pub user_agent: String,
    pub ban: Vec<String>,
    pub max_retries: u32,
}

impl FetchSettings {
    /// The values that hold where none is configured: nothing is banned.
    pub open spec fn is_default(self) -> bool {
        &&& self.delay_ms == 200
        &&& self.timeout_secs == 15
        &&& self.user_agent@ == "memoir/0.1 (personal history indexer)"@
        &&& self.ban@.len() == 0
        &&& self.max_retries == 3
    }
}

impl Default for FetchSettings {
    fn default() -> (r: Self)
        ensures
            r.is_default(),
    {
        FetchSettings {
            delay_ms: 200,
            timeout_secs: 15,
            user_agent: "memoir/0.1 (personal history indexer)".to_owned(),
            ban: Vec::new(),
            max_retries: 3,
        }
    }
}

/// How answers are generated.
#[derive(Debug, Clone)]
pub struct LlmSettings {
    pub provider: LlmProvider,
    pub base_url: String,
    pub model: String,
    pub api_key: Option<String>,
    /// Total character budget for the context block sent to the model, divided evenly
    /// across the retrieved sources.
    pub max_context_chars: usize,
    pub system_prompt: Option<String>,
}

impl LlmSettings {
    /// The values that hold where none is configured.
    pub open spec fn is_default(self) -> bool {
        &&& self.provider == LlmProvider::LmStudio
        &&& self.base_url@ == "http://localhost:1234"@
        &&& self.model@ == "local-model"@
        &&& self.api_key is None
        &&& self.max_context_chars == 8000
        &&& self.system_prompt is None
    }
}

impl Default for LlmSettings {
    fn default() -> (r: Self)
        ensures
            r.is_default(),
    {
        LlmSettings {
            provider: LlmProvider::LmStudio,
            base_url: "http://localhost:1234".to_owned(),
            model: "local-model".to_owned(),
            api_key: None,
            max_context_chars: 8000,
            system_prompt: None,
        }
    }
}

/// Background synchronisation.
#[derive(Debug, Clone, Copy)]
pub struct SyncSettings {
    pub interval_mins: u64,
    pub fetch_batch: u32,
    pub embed_batch: u32,
}

impl SyncSettings {
    /// The values that hold where none is configured.
    pub open spec fn is_default(self) -> bool {
        self.interval_mins == 60 && self.fetch_batch == 500 && self.embed_batch == 200
    }

    /// The pause between two background runs, in seconds: never less than a minute.
    pub open spec fn pause_secs(self) -> int {
        if self.interval_mins == 0 {
            60
        } else {
            self.interval_mins * 60
        }
    }

    /// The pause between two background runs, in seconds.
    pub fn sleep_secs(&self) -> (r: u64)
        requires
            self.interval_mins * 60 <= u64::MAX,
        ensures
            r == self.pause_secs(),
    {
        if self.interval_mins == 0 {
            60
        } else {
            self.interval_mins * 60
        }
    }
}

impl Default for SyncSettings {
    fn default() -> (r: Self)
        ensures
            r.is_default(),
    {
        SyncSettings { interval_mins: 60, fetch_batch: 500, embed_batch: 200 }
    }
}

/// All settings.
#[derive(Debug, Clone)]
pub struct Settings {
    pub application: ApplicationSettings,
    pub browser: BrowserSettings,
    pub data: DataSettings,
    pub fetch: FetchSettings,
    pub llm: LlmSettings,
    pub sync: SyncSettings,
    pub embed: EmbedSettings,
}

/// A path with a leading tilde replaced by the home directory.
pub open spec fn tilde_expanded(platform: Platform, p: Seq<char>, home: Seq<char>) -> Seq<char> {
    if p == "~"@ {
        home
    } else if has_prefix(p, "~/"@) {
        path_joined(platform, home, p.skip("~/"@.len() as int))
    } else {
        p
    }
}

/// Replaces a leading tilde by the home directory.
pub fn expand_tilde(platform: Platform, p: &str, home: &str) -> (r: String)
    ensures
        r@ == tilde_expanded(platform, p@, home@),
{
    if same_text(p, "~") {
        return home.to_owned();
    }
    match strip_prefix(p, "~/") {
        Some(rest) => join_path(platform, home, rest),
        None => p.to_owned(),
    }
}

impl BrowserSettings {
    /// The values that hold where none is configured, for a home directory.
    pub open spec fn is_default_in(self, platform: Platform, home: Seq<char>) -> bool {
        &&& self.history_db_path@ == path_joined(
            platform,
            home,
            "Library/Application Support/Orion/Defaults/history"@,
        )
        &&& self.kind == BrowserKind::Orion
    }

    /// The values that hold where none is configured, for a home directory.
    pub fn default_in(platform: Platform, home: &str) -> (r: Self)
        ensures
            r.is_default_in(platform, home@),
    {
        BrowserSettings {
            history_db_path: join_path(
                platform,
                home,
                "Library/Application Support/Orion/Defaults/history",
            ),
            kind: BrowserKind::Orion,
        }
    }
}

impl DataSettings {
    /// The values that hold where none is configured, for a home directory.
    pub open spec fn is_default_in(self, platform: Platform, home: Seq<char>) -> bool {
        self.dir@ == path_joined(platform, home, ".memoir"@)
    }

    /// The values that hold where none is configured, for a home directory.
    pub fn default_in(platform: Platform, home: &str) -> (r: Self)
        ensures
            r.is_default_in(platform, home@),
    {
        DataSettings { dir: join_path(platform, home, ".memoir") }
    }
}

/// What is wrong with the settings, in the order in which it is reported.
pub open spec fn setting_errors(s: Settings) -> Seq<Seq<char>> {
    let e0: Seq<Seq<char>> = seq![];
    let e1 = if s.sync.interval_mins == 0 {
        e0.push("sync interval cannot be zero"@)
    } else {
        e0
    };
    let e2 = if s.fetch.timeout_secs == 0 {
        e1.push("fetch timeout cannot be zero"@)
    } else {
        e1
    };
    let e3 = if s.fetch.max_retries == 0 {
        e2.push("fetch max_retries cannot be zero"@)
    } else {
        e2
    };
    if s.application.port == 0 {
        e3.push("application port cannot be zero"@)
    } else {
        e3
    }
}

impl Settings {
    /// The values that hold where none is configured, for a home directory.
    pub open spec fn is_default_in(self, platform: Platform, home: Seq<char>) -> bool {
        &&& self.application.is_default()
        &&& self.browser.is_default_in(platform, home)
        &&& self.data.is_default_in(platform, home)
        &&& self.fetch.is_default()
        &&& self.llm.is_default()
        &&& self.sync.is_default()
        &&& self.embed.is_default()
    }

    /// The values that hold where none is configured, for a home directory.
    pub fn default_in(platform: Platform, home: &str) -> (r: Self)
        ensures
            r.is_default_in(platform, home@),
    {
        Settings {
            application: ApplicationSettings::default(),
            browser: BrowserSettings::default_in(platform, home),
            data: DataSettings::default_in(platform, home),
            fetch: FetchSettings::default(),
            llm: LlmSettings::default(),
            sync: SyncSettings::default(),
            embed: EmbedSettings::default(),
        }
    }

    /// The directory of the configuration file: the configured one with its tilde expanded,
    /// or `.memoir` in the home directory.
    pub fn config_dir(platform: Platform, configured: Option<&str>, home: &str) -> (r: String)
        ensures
            r@ == match configured {
                Some(d) => tilde_expanded(platform, d@, home@),
                None => path_joined(platform, home@, ".memoir"@),
            },
    {
        match configured {
            Some(d) => expand_tilde(platform, d, home),
            None => join_path(platform, home, ".memoir"),
        }
    }

    /// Checks the settings, and reports every error where there is one.
    pub fn validate(&self) -> (r: Result<(), Vec<String>>)
        ensures
            match r {
                Ok(_) => setting_errors(*self).len() == 0,
                Err(errors) => setting_errors(*self).len() > 0 && texts(errors@)
                    == setting_errors(*self),
            },
    {
        let mut errors: Vec<String> = Vec::new();
        assert(texts(errors@) =~= seq![]);
        if self.sync.interval_mins == 0 {
            push_text(&mut errors, "sync interval cannot be zero");
        }
        if self.fetch.timeout_secs == 0 {
            push_text(&mut errors, "fetch timeout cannot be zero");
        }
        if self.fetch.max_retries == 0 {
            push_text(&mut errors, "fetch max_retries cannot be zero");
        }
        if self.application.port == 0 {
            push_text(&mut errors, "application port cannot be zero");
        }
        assert(texts(errors@).len() == errors@.len());
        if errors.len() == 0 {
            Ok(())
        } else {
            Err(errors)
        }
    }

    /// The settings in force, and the warnings about them: what the configuration file holds,
    /// valid or not, and the defaults where it is missing or cannot be read.
    pub fn load_from(platform: Platform, file: Option<Settings>, home: &str) -> (r: (
        Settings,
        Vec<String>,
    ))
        ensures
            match file {
                Some(s) => r.0 == s && texts(r.1@) == setting_errors(s),
                None => r.0.is_default_in(platform, home@) && r.1@.len() == 0,
            },
    {
        match file {
            Some(s) => {
                let warnings: Vec<String> = match s.validate() {
                    Ok(_) => Vec::new(),
                    Err(errors) => errors,
                };
                assert(texts(warnings@) =~= setting_errors(s));
                (s, warnings)
            },
            None => (Settings::default_in(platform, home), Vec::new()),
        }
    }
}

/// The part of a URL behind its scheme; all of it where the scheme is neither of the two.
pub open spec fn behind_scheme(url: Seq<char>) -> Seq<char> {
    if has_prefix(url, "https://"@) {
        url.skip("https://"@.len() as int)
    } else if has_prefix(url, "http://"@) {
        url.skip("http://"@.len() as int)
    } else {
        url
    }
}

/// An authority without its port: a last colon with nothing but digits behind it goes, with
/// them.
pub open spec fn without_port(authority: Seq<char>) -> Seq<char> {
    let i = last_at(authority, ':');
    if i >= 0 && text::all_digits(authority.skip(i + 1)) {
        authority.take(i)
    } else {
        authority
    }
}

/// The host of a URL, without the port.
pub open spec fn host_of(url: Seq<char>) -> Seq<char> {
    let rest = behind_scheme(url);
    without_port(rest.take(first_of(rest, "/?#"@)))
}

/// An authority without its port.
pub fn strip_port<'a>(authority: &'a str) -> (r: &'a str)
    ensures
        r@ == without_port(authority@),
{
    match rsplit_once(authority, ':') {
        Some((host, port)) => {
            if only_digits(port) {
                host
            } else {
                authority
            }
        },
        None => authority,
    }
}

/// The part of a URL behind its scheme.
pub fn after_scheme<'a>(url: &'a str) -> (r: &'a str)
    ensures
        r@ == behind_scheme(url@),
{
    match strip_prefix(url, "https://") {
        Some(rest) => rest,
        None => match strip_prefix(url, "http://") {
            Some(rest) => rest,
            None => url,
        },
    }
}

/// The host of a URL, without the port.
pub fn host_from_url<'a>(url: &'a str) -> (r: &'a str)
    ensures
        r@ == host_of(url@),
{
    let rest: &str = after_scheme(url);
    strip_port(before_first(rest, "/?#"))
}

/// A host that is an IP address: a bracketed literal, or digits and dots alone.
pub open spec fn is_ip_host(host: Seq<char>) -> bool {
    ||| host.len() > 0 && host[0] == '['
    ||| forall|i: int|
        0 <= i < host.len() ==> (text::is_digit(#[trigger] host[i]) || host[i] == '.')
}

/// Whether a host is an IP address.
pub fn is_ip(host: &str) -> (r: bool)
    ensures
        r == is_ip_host(host@),
{
    let v: Vec<char> = text::chars_of(host);
    if v.len() > 0 && v[0] == '[' {
        return true;
    }
    let mut i: usize = 0;
    while i < v.len()
        invariant
            i <= v.len(),
            v@ == host@,
            !(v@.len() > 0 && v@[0] == '['),
            forall|k: int|
                0 <= k < i ==> (text::is_digit(#[trigger] host@[k]) || host@[k] == '.'),
        decreases v.len() - i,
    {
        if !(('0' <= v[i] && v[i] <= '9') || v[i] == '.') {
            assert(!(text::is_digit(host@[i as int]) || host@[i as int] == '.'));
            return false;
        }
        i = i + 1;
    }
    true
}

/// A URL lies at or below `base`: it is it, or it goes on with a path, a query or a fragment.
pub open spec fn at_or_below(url: Seq<char>, base: Seq<char>) -> bool {
    ||| url == base
    ||| has_prefix(url, base.push('/'))
    ||| has_prefix(url, base.push('?'))
    ||| has_prefix(url, base.push('#'))
}

/// A pattern with a slash names a path prefix, one without names a host and its subdomains.
pub open spec fn ban_matches(url: Seq<char>, p: Seq<char>) -> bool {
    if p.contains('/') {
        at_or_below(url, "https://"@ + p) || at_or_below(url, "http://"@ + p)
    } else {
        let host = host_of(url);
        host == p || (!is_ip_host(host) && has_suffix(host, seq!['.'] + p))
    }
}

/// Whether a URL lies at or below the base made of a scheme and a pattern.
fn below_base(url: &str, scheme: &str, p: &str) -> (r: bool)
    ensures
        r == at_or_below(url@, scheme@ + p@),
{
    let mut base: String = scheme.to_owned();
    base.append(p);
    let mut slash: String = base.clone();
    slash.push('/');
    let mut query: String = base.clone();
    query.push('?');
    let mut fragment: String = base.clone();
    fragment.push('#');
    same_text(url, base.as_str()) || starts_with(url, slash.as_str()) || starts_with(
        url,
        query.as_str(),
    ) || starts_with(url, fragment.as_str())
}

/// Whether `url` matches the ban pattern `p`.
///
/// Without a slash in `p`, the host is matched: exactly, or as a subdomain of `p`. With one,
/// the URL must start with a scheme and `p`, followed by `/`, `?`, `#` or its end, so that
/// no partial path segment is caught.
pub fn matches_ban_pattern(url: &str, p: &str) -> (r: bool)
    ensures
        r == ban_matches(url@, p@),
{
    let slash: bool = contains_char(p, '/');
    if slash {
        below_base(url, "https://", p) || below_base(url, "http://", p)
    } else {
        let host: &str = host_from_url(url);
        let mut suffix: String = String::new();
        suffix.push('.');
        suffix.append(p);
        assert(suffix@ =~= seq!['.'] + p@);
        same_text(host, p) || (!is_ip(host) && ends_with(host, suffix.as_str()))
    }
}

/// Whether `c` stands in `s`.
pub fn contains_char(s: &str, c: char) -> (r: bool)
    ensures
        r == s@.contains(c),
{
    match text::find_last(s, c) {
        Some(i) => {
            proof {
                text::lemma_last_at(s@, c);
            }
            assert(s@[i as int] == c);
            true
        },
        None => {
            proof {
                text::lemma_last_at(s@, c);
            }
            false
        },
    }
}

/// Some pattern of the list matches.
pub open spec fn any_matches(url: Seq<char>, patterns: Seq<Seq<char>>) -> bool {
    exists|i: int| 0 <= i < patterns.len() && ban_matches(url, #[trigger] patterns[i])
}

/// Whether some pattern of the list matches.
pub fn matches_any(url: &str, patterns: &Vec<String>) -> (r: bool)
    ensures
        r == any_matches(url@, texts(patterns@)),
{
    let mut i: usize = 0;
    while i < patterns.len()
        invariant
            i <= patterns.len(),
            forall|k: int| 0 <= k < i ==> !ban_matches(url@, #[trigger] texts(patterns@)[k]),
        decreases patterns.len() - i,
    {
        if matches_ban_pattern(url, patterns[i].as_str()) {
            assert(ban_matches(url@, texts(patterns@)[i as int]));
            return true;
        }
        i = i + 1;
    }
    false
}

impl FetchSettings {
    /// Whether pages of this URL are never fetched.
    pub fn is_banned(&self, url: &str) -> (r: bool)
        ensures
            r == any_matches(url@, texts(self.ban@)),
    {
        matches_any(url, &self.ban)
    }
}

/// Hosts that are almost always private or login-gated, or that yield nothing worth indexing:
/// mail, account management, social networks, messaging, cloud storage and streaming.
pub open spec fn private_hosts() -> Seq<Seq<char>> {
    seq![
        "mail.google.com"@,
        "mail.yahoo.com"@,
        "outlook.live.com"@,
        "outlook.office.com"@,
        "mail.proton.me"@,
        "app.fastmail.com"@,
        "accounts.google.com"@,
        "myaccount.google.com"@,
        "login.microsoftonline.com"@,
        "login.live.com"@,
        "appleid.apple.com"@,
        "facebook.com"@,
        "instagram.com"@,
        "linkedin.com"@,
        "web.whatsapp.com"@,
        "web.telegram.org"@,
        "discord.com"@,
        "drive.google.com"@,
        "docs.google.com"@,
        "dropbox.com"@,
        "onedrive.live.com"@,
        "netflix.com"@,
        "hulu.com"@,
        "disneyplus.com"@,
        "primevideo.com"@,
        "max.com"@,
        "peacocktv.com"@,
        "paramountplus.com"@,
    ]
}

/// The ban patterns suggested for a new configuration.
pub fn suggested_ban_list() -> (r: Vec<String>)
    ensures
        texts(r@) == private_hosts(),
{
    let mut r: Vec<String> = Vec::new();
    assert(texts(r@) =~= seq![]);
    push_text(&mut r, "mail.google.com");
    push_text(&mut r, "mail.yahoo.com");
    push_text(&mut r, "outlook.live.com");
    push_text(&mut r, "outlook.office.com");
    push_text(&mut r, "mail.proton.me");
    push_text(&mut r, "app.fastmail.com");
    push_text(&mut r, "accounts.google.com");
    push_text(&mut r, "myaccount.google.com");
    push_text(&mut r, "login.microsoftonline.com");
    push_text(&mut r, "login.live.com");
    push_text(&mut r, "appleid.apple.com");
    push_text(&mut r, "facebook.com");
    push_text(&mut r, "instagram.com");
    push_text(&mut r, "linkedin.com");
    push_text(&mut r, "web.whatsapp.com");
    push_text(&mut r, "web.telegram.org");
    push_text(&mut r, "discord.com");
    push_text(&mut r, "drive.google.com");
    push_text(&mut r, "docs.google.com");
    push_text(&mut r, "dropbox.com");
    push_text(&mut r, "onedrive.live.com");
    push_text(&mut r, "netflix.com");
    push_text(&mut r, "hulu.com");
    push_text(&mut r, "disneyplus.com");
    push_text(&mut r, "primevideo.com");
    push_text(&mut r, "max.com");
    push_text(&mut r, "peacocktv.com");
    push_text(&mut r, "paramountplus.com");
    assert(texts(r@) =~= private_hosts());
    r
}

/// What stands behind the scheme is found again under both schemes.
proof fn lemma_behind_scheme(rest: Seq<char>)
    ensures
        behind_scheme("https://"@ + rest) == rest,
        behind_scheme("http://"@ + rest) == rest,
{
    reveal_strlit("https://");
    reveal_strlit("http://");
    let a = "https://"@ + rest;
    let b = "http://"@ + rest;
    assert(a.skip("https://"@.len() as int) =~= rest);
    assert(b.skip("http://"@.len() as int) =~= rest);
    assert(a.subrange(0, "https://"@.len() as int) =~= "https://"@);
    assert(b.subrange(0, "http://"@.len() as int) =~= "http://"@);
    if has_prefix(b, "https://"@) {
        assert(b.subrange(0, "https://"@.len() as int)[4] == b[4]);
        assert(b[4] == ':');
        assert("https://"@[4] == 's');
    }
}

/// The host of a URL is the same under both schemes.
pub proof fn law_host_ignores_the_scheme(rest: Seq<char>)
    ensures
        host_of("https://"@ + rest) == host_of("http://"@ + rest),
{
    lemma_behind_scheme(rest);
}

/// A port goes from an authority.
proof fn lemma_without_port(host: Seq<char>, port: Seq<char>)
    requires
        text::all_digits(port),
    ensures
        without_port(host + seq![':'] + port) == host,
{
    let authority = host + seq![':'] + port;
    text::lemma_last_at(authority, ':');
    let i = last_at(authority, ':');
    assert(authority[host.len() as int] == ':');
    if i > host.len() {
        assert(authority[i] == port[i - host.len() - 1]);
    }
    assert(authority.skip(i + 1) =~= port);
    assert(authority.take(i) =~= host);
}

/// The characters that end an authority.
proof fn lemma_separators(c: char)
    ensures
        "/?#"@.contains(c) <==> (c == '/' || c == '?' || c == '#'),
{
    reveal_strlit("/?#");
    let s = "/?#"@;
    assert(s[0] == '/' && s[1] == '?' && s[2] == '#');
    assert(s.len() == 3);
}

/// An authority ends where its path, query or fragment begins.
proof fn lemma_authority_ends(host: Seq<char>, port: Seq<char>, rest: Seq<char>)
    requires
        text::all_digits(port),
        first_of(host, "/?#"@) == host.len(),
        rest.len() > 0 ==> "/?#"@.contains(rest[0]),
    ensures
        first_of(host + seq![':'] + port + rest, "/?#"@) == host.len() + 1 + port.len(),
{
    let tail = host + seq![':'] + port + rest;
    let n = (host.len() + 1 + port.len()) as int;
    text::lemma_first_of(host, "/?#"@);
    assert forall|k: int| 0 <= k < n implies !"/?#"@.contains(#[trigger] tail[k]) by {
        lemma_separators(tail[k]);
        if k < host.len() {
            assert(tail[k] == host[k]);
        } else if k > host.len() {
            assert(tail[k] == port[k - host.len() - 1]);
        }
    }
    if n < tail.len() {
        assert(tail[n] == rest[0]);
    }
    text::lemma_first_of_unique(tail, "/?#"@, n);
}

/// A port, with whatever path, query or fragment stands behind it, does not count to the host.
pub proof fn law_host_ignores_the_port(host: Seq<char>, port: Seq<char>, rest: Seq<char>)
    requires
        text::all_digits(port),
        first_of(host, "/?#"@) == host.len(),
        rest.len() > 0 ==> "/?#"@.contains(rest[0]),
    ensures
        host_of("http://"@ + (host + seq![':'] + port + rest)) == host,
{
    let authority = host + seq![':'] + port;
    let tail = authority + rest;
    lemma_behind_scheme(tail);
    lemma_authority_ends(host, port, rest);
    assert(tail.take(authority.len() as int) =~= authority);
    lemma_without_port(host, port);
}

/// A pattern without a slash bans the host itself and each of its subdomains, on any path.
pub proof fn law_subdomains_are_banned(url: Seq<char>, sub: Seq<char>, p: Seq<char>)
    requires
        !p.contains('/'),
        host_of(url) == p || (host_of(url) == sub + (seq!['.'] + p) && !is_ip_host(
            host_of(url),
        )),
    ensures
        ban_matches(url, p),
{
    if host_of(url) != p {
        let host = host_of(url);
        let suffix = seq!['.'] + p;
        assert(host.skip(host.len() - suffix.len()) =~= suffix);
    }
}

/// A pattern without a slash bans no host that merely ends with the same letters.
pub proof fn law_lookalike_hosts_are_spared(url: Seq<char>, sub: Seq<char>, p: Seq<char>)
    requires
        !p.contains('/'),
        sub.len() > 0,
        sub.last() != '.',
        host_of(url) == sub + p,
    ensures
        !ban_matches(url, p),
{
    let host = host_of(url);
    assert(host.len() > p.len());
    let suffix = seq!['.'] + p;
    if has_suffix(host, suffix) {
        assert(host.skip(host.len() - suffix.len())[0] == suffix[0]);
        assert(host[host.len() - suffix.len()] == sub.last());
        assert(false);
    }
}

/// A pattern with a slash bans no sibling whose name only begins with the same letters.
pub proof fn law_sibling_paths_are_spared(p: Seq<char>, more: Seq<char>)
    requires
        p.contains('/'),
        more.len() > 0,
        !"/?#"@.contains(more[0]),
    ensures
        !ban_matches("https://"@ + p + more, p),
        !ban_matches("http://"@ + p + more, p),
{
    reveal_strlit("https://");
    reveal_strlit("http://");
    reveal_strlit("/?#");
    let a = "https://"@ + p;
    let b = "http://"@ + p;
    assert("/?#"@[0] == '/' && "/?#"@[1] == '?' && "/?#"@[2] == '#');
    lemma_not_below(a, more);
    lemma_not_below(b, more);
    assert((a + more)[4] == 's');
    assert((b + more)[4] == ':');
    assert(b[4] == ':' && a[4] == 's');
    lemma_other_base(a + more, b);
    lemma_other_base(b + more, a);
    assert("https://"@ + p + more =~= a + more);
    assert("http://"@ + p + more =~= b + more);
}

/// A base followed by something else than a separator does not lead below the base.
proof fn lemma_not_below(base: Seq<char>, more: Seq<char>)
    requires
        more.len() > 0,
        more[0] != '/' && more[0] != '?' && more[0] != '#',
    ensures
        !at_or_below(base + more, base),
{
    let url = base + more;
    assert(url.len() > base.len());
    assert(url[base.len() as int] == more[0]);
    assert(!has_prefix(url, base.push('/'))) by {
        if has_prefix(url, base.push('/')) {
            assert(url.take(base.push('/').len() as int)[base.len() as int] == base.push('/')[base.len() as int]);
        }
    }
    assert(!has_prefix(url, base.push('?'))) by {
        if has_prefix(url, base.push('?')) {
            assert(url.take(base.push('?').len() as int)[base.len() as int] == base.push('?')[base.len() as int]);
        }
    }
    assert(!has_prefix(url, base.push('#'))) by {
        if has_prefix(url, base.push('#')) {
            assert(url.take(base.push('#').len() as int)[base.len() as int] == base.push('#')[base.len() as int]);
        }
    }
}

/// A URL of one scheme does not lie below a base of the other.
proof fn lemma_other_base(url: Seq<char>, base: Seq<char>)
    requires
        url.len() > 4,
        base.len() > 4,
        url[4] != base[4],
    ensures
        !at_or_below(url, base),
{
    assert forall|c: char| !#[trigger] has_prefix(url, base.push(c)) by {
        if has_prefix(url, base.push(c)) {
            assert(url.take(base.push(c).len() as int)[4] == base.push(c)[4]);
        }
    }
}

/// More patterns ban no less, and an empty list bans nothing.
pub proof fn law_more_patterns_ban_more(
    url: Seq<char>,
    patterns: Seq<Seq<char>>,
    more: Seq<Seq<char>>,
)
    ensures
        !any_matches(url, Seq::empty()),
        any_matches(url, patterns + more) == (any_matches(url, patterns) || any_matches(url, more)),
{
    let all = patterns + more;
    if any_matches(url, patterns) {
        let i = choose|i: int| 0 <= i < patterns.len() && ban_matches(url, #[trigger] patterns[i]);
        assert(all[i] == patterns[i]);
    }
    if any_matches(url, more) {
        let i = choose|i: int| 0 <= i < more.len() && ban_matches(url, #[trigger] more[i]);
        assert(all[patterns.len() + i] == more[i]);
    }
    if any_matches(url, all) {
        let i = choose|i: int| 0 <= i < all.len() && ban_matches(url, #[trigger] all[i]);
        if i < patterns.len() {
            assert(all[i] == patterns[i]);
        } else {
            assert(all[i] == more[i - patterns.len()]);
        }
    }
}

/// The host of a page is what stands between its scheme and the first slash, question mark or
/// number sign.
pub proof fn law_the_host_of_a_page(host: Seq<char>, rest: Seq<char>)
    requires
        !host.contains('/') && !host.contains('?') && !host.contains('#') && !host.contains(':'),
        rest.len() > 0 ==> rest[0] == '/' || rest[0] == '?' || rest[0] == '#',
    ensures
        host_of("https://"@ + (host + rest)) == host,
        host_of("http://"@ + (host + rest)) == host,
{
    let s = host + rest;
    lemma_behind_scheme(s);
    reveal_strlit("/?#");
    let set = "/?#"@;
    assert(set =~= seq!['/', '?', '#']);
    assert forall|i: int| 0 <= i < host.len() implies !set.contains(#[trigger] s[i]) by {
        assert(s[i] == host[i]);
        assert(host.contains(host[i]));
        if set.contains(s[i]) {
            let k = choose|k: int| 0 <= k < set.len() && set[k] == s[i];
            assert(k == 0 || k == 1 || k == 2);
        }
    }
    if rest.len() > 0 {
        assert(s[host.len() as int] == rest[0]);
        assert(set[0] == '/' && set[1] == '?' && set[2] == '#');
        assert(set.contains(rest[0]));
    }
    text::lemma_first_of_unique(s, set, host.len() as int);
    assert(s.take(host.len() as int) =~= host);
    text::lemma_last_at(host, ':');
    let i = last_at(host, ':');
    if i >= 0 {
        assert(host[i] == ':');
    }
}

/// A ban without a slash is on a host: it matches the pages of that host and, but for hosts that
/// are addresses, of every host below it, and no other.
pub proof fn law_a_ban_on_a_host(url: Seq<char>, p: Seq<char>)
    requires
        !p.contains('/'),
    ensures
        ban_matches(url, p) <==> host_of(url) == p || (!is_ip_host(host_of(url)) && exists|
            sub: Seq<char>,
        | #[trigger] (sub + (seq!['.'] + p)) == host_of(url)),
{
    text::law_a_text_stands_between_two_others(host_of(url), seq!['.'] + p);
}

/// A ban with a slash is on a part of a site: it matches the page there, under either scheme, and
/// all below it, with whatever query or fragment, and no other.
pub proof fn law_a_ban_on_a_part_of_a_site(url: Seq<char>, p: Seq<char>)
    requires
        p.contains('/'),
    ensures
        ban_matches(url, p) <==> is_below(url, "https://"@ + p) || is_below(url, "http://"@ + p),
{
    lemma_below(url, "https://"@ + p);
    lemma_below(url, "http://"@ + p);
}

/// A URL is another, or goes on from it with a slash, a question mark or a number sign.
pub open spec fn is_below(url: Seq<char>, base: Seq<char>) -> bool {
    exists|rest: Seq<char>| #[trigger]
        (base + rest) == url && (rest.len() == 0 || rest[0] == '/' || rest[0] == '?' || rest[0]
            == '#')
}

proof fn lemma_below(url: Seq<char>, base: Seq<char>)
    ensures
        at_or_below(url, base) <==> is_below(url, base),
{
    if at_or_below(url, base) {
        let rest = url.skip(base.len() as int);
        if url == base {
            assert(base + Seq::<char>::empty() =~= url);
        } else {
            let c = if has_prefix(url, base.push('/')) {
                '/'
            } else if has_prefix(url, base.push('?')) {
                '?'
            } else {
                '#'
            };
            let front = base.push(c);
            assert(url.subrange(0, front.len() as int) == front);
            assert forall|k: int| 0 <= k < front.len() implies url[k] == front[k] by {
                assert(url.subrange(0, front.len() as int)[k] == url[k]);
            }
            assert(base + rest =~= url);
            assert(rest[0] == c);
        }
    }
    if is_below(url, base) {
        let rest = choose|rest: Seq<char>| #[trigger]
            (base + rest) == url && (rest.len() == 0 || rest[0] == '/' || rest[0] == '?' || rest[0]
                == '#');
        if rest.len() == 0 {
            assert(url =~= base);
        } else {
            let front = base.push(rest[0]);
            assert(url.subrange(0, front.len() as int) =~= front);
        }
    }
}

/// A page is banned exactly where one of the patterns matches it.
pub proof fn law_one_pattern_is_enough(url: Seq<char>, patterns: Seq<Seq<char>>)
    ensures
        any_matches(url, patterns) <==> patterns.filter(|p: Seq<char>| ban_matches(url, p)).len()
            > 0,
    decreases patterns.len(),
{
    reveal(Seq::filter);
    if patterns.len() > 0 {
        let init = patterns.drop_last();
        law_one_pattern_is_enough(url, init);
        let n = patterns.len() - 1;
        if any_matches(url, patterns) {
            let i = choose|i: int| 0 <= i < patterns.len() && ban_matches(url, #[trigger] patterns[i]);
            if i < n {
                assert(init[i] == patterns[i]);
            }
        }
        if any_matches(url, init) {
            let i = choose|i: int| 0 <= i < init.len() && ban_matches(url, #[trigger] init[i]);
            assert(patterns[i] == init[i]);
        }
        if ban_matches(url, patterns.last()) {
            assert(ban_matches(url, patterns[n]));
        }
    }
}

/// Settings are faulty exactly where an interval, a timeout, a number of attempts or a port is
/// zero, and each of these is told.
pub proof fn law_every_fault_of_the_settings_is_told(s: Settings)
    ensures
        ({
            let told = setting_errors(s);
            &&& told.len() == (if s.sync.interval_mins == 0 {
                1int
            } else {
                0
            }) + (if s.fetch.timeout_secs == 0 {
                1int
            } else {
                0
            }) + (if s.fetch.max_retries == 0 {
                1int
            } else {
                0
            }) + (if s.application.port == 0 {
                1int
            } else {
                0
            })
            &&& s.sync.interval_mins == 0 ==> told.first() == "sync interval cannot be zero"@
            &&& s.application.port == 0 ==> told.last() == "application port cannot be zero"@
            &&& s.fetch.timeout_secs == 0 ==> told.contains("fetch timeout cannot be zero"@)
            &&& s.fetch.max_retries == 0 ==> told.contains("fetch max_retries cannot be zero"@)
        }),
{
    let told = setting_errors(s);
    let a: int = if s.sync.interval_mins == 0 {
        1
    } else {
        0
    };
    let b: int = if s.fetch.timeout_secs == 0 {
        1
    } else {
        0
    };
    if s.fetch.timeout_secs == 0 {
        assert(told[a] == "fetch timeout cannot be zero"@);
    }
    if s.fetch.max_retries == 0 {
        assert(told[a + b] == "fetch max_retries cannot be zero"@);
    }
}

/// A path that begins with the sign of the home directory lies there; any other stays.
pub proof fn law_only_the_home_sign_is_expanded(
    platform: Platform,
    p: Seq<char>,
    rest: Seq<char>,
    home: Seq<char>,
)
    ensures
        tilde_expanded(platform, "~"@, home) == home,
        tilde_expanded(platform, "~/"@ + rest, home) == path_joined(platform, home, rest),
        p.len() == 0 || p[0] != '~' || (p.len() > 1 && p[1] != '/') ==> tilde_expanded(
            platform,
            p,
            home,
        ) == p,
{
    reveal_strlit("~");
    reveal_strlit("~/");
    let s = "~/"@ + rest;
    assert(s.len() >= 2);
    assert(s.subrange(0, 2) =~= "~/"@);
    assert(s.skip(2) =~= rest);
    if has_prefix(p, "~/"@) {
        assert(p.subrange(0, 2)[0] == p[0]);
        assert(p.subrange(0, 2)[1] == p[1]);
    }
}

/// What holds unless the settings say otherwise: the server listens at home on port 3000, a run
/// comes every hour, takes five hundred pages and embeds two hundred, a page is waited for fifteen
/// seconds and given up after three failures, and the context of a question has eight thousand
/// characters.
pub proof fn law_what_holds_by_default(s: Settings, platform: Platform, home: Seq<char>)
    requires
        s.is_default_in(platform, home),
    ensures
        s.application.host@ == "127.0.0.1"@ && s.application.port == 3000,
        s.application.ui_poll_secs == 30 && s.application.custom_css@ == ""@,
        s.application.hotkey@ == "CmdOrCtrl+Shift+Space"@,
        s.fetch.delay_ms == 200 && s.fetch.timeout_secs == 15 && s.fetch.max_retries == 3,
        s.fetch.ban@.len() == 0,
        s.fetch.user_agent@ == "memoir/0.1 (personal history indexer)"@,
        s.llm.provider is LmStudio && s.llm.base_url@ == "http://localhost:1234"@,
        s.llm.model@ == "local-model"@ && s.llm.api_key is None && s.llm.system_prompt is None,
        s.llm.max_context_chars == 8000,
        s.sync.interval_mins == 60 && s.sync.fetch_batch == 500 && s.sync.embed_batch == 200,
        s.embed.enabled && s.embed.vector_search && s.embed.model is BgeSmallEnV15,
        s.browser.kind is Orion,
        s.data.dir@ == path_joined(platform, home, ".memoir"@),
        s.browser.history_db_path@ == path_joined(
            platform,
            home,
            "Library/Application Support/Orion/Defaults/history"@,
        ),
        setting_errors(s).len() == 0,
{
}

/// The hosts that are private by nature are these.
pub proof fn law_the_private_hosts(host: Seq<char>)
    ensures
        private_hosts().contains(host) <==> seq![
            "mail.google.com"@,
            "mail.yahoo.com"@,
            "outlook.live.com"@,
            "outlook.office.com"@,
            "mail.proton.me"@,
            "app.fastmail.com"@,
            "accounts.google.com"@,
            "myaccount.google.com"@,
            "login.microsoftonline.com"@,
            "login.live.com"@,
            "appleid.apple.com"@,
            "facebook.com"@,
            "instagram.com"@,
            "linkedin.com"@,
            "web.whatsapp.com"@,
            "web.telegram.org"@,
            "discord.com"@,
            "drive.google.com"@,
            "docs.google.com"@,
            "dropbox.com"@,
            "onedrive.live.com"@,
            "netflix.com"@,
            "hulu.com"@,
            "disneyplus.com"@,
            "primevideo.com"@,
            "max.com"@,
            "peacocktv.com"@,
            "paramountplus.com"@,
        ].contains(host),
{
    assert(private_hosts() =~= seq![
        "mail.google.com"@,
        "mail.yahoo.com"@,
        "outlook.live.com"@,
        "outlook.office.com"@,
        "mail.proton.me"@,
        "app.fastmail.com"@,
        "accounts.google.com"@,
        "myaccount.google.com"@,
        "login.microsoftonline.com"@,
        "login.live.com"@,
        "appleid.apple.com"@,
        "facebook.com"@,
        "instagram.com"@,
        "linkedin.com"@,
        "web.whatsapp.com"@,
        "web.telegram.org"@,
        "discord.com"@,
        "drive.google.com"@,
        "docs.google.com"@,
        "dropbox.com"@,
        "onedrive.live.com"@,
        "netflix.com"@,
        "hulu.com"@,
        "disneyplus.com"@,
        "primevideo.com"@,
        "max.com"@,
        "peacocktv.com"@,
        "paramountplus.com"@,
    ]);
}

/// A run is waited for as many minutes as the settings say, and one where they say none.
pub proof fn law_the_pause_between_runs(s: SyncSettings)
    ensures
        s.interval_mins > 0 ==> s.pause_secs() == 60 * s.interval_mins,
        s.interval_mins == 0 ==> s.pause_secs() == 60,
{
}

/// The port goes from a host under either scheme; what stands behind a colon and is no number
/// stays.
pub proof fn law_only_numbers_are_ports(host: Seq<char>, port: Seq<char>)
    requires
        !port.contains(':'),
    ensures
        text::all_digits(port) ==> without_port(host + seq![':'] + port) == host,
        !text::all_digits(port) ==> without_port(host + seq![':'] + port) == host + seq![':'] + port,
        !host.contains(':') ==> without_port(host) == host,
{
    let authority = host + seq![':'] + port;
    if text::all_digits(port) {
        lemma_without_port(host, port);
    } else {
        text::lemma_last_at(authority, ':');
        let i = last_at(authority, ':');
        assert(authority[host.len() as int] == ':');
        if i > host.len() {
            assert(port[i - host.len() - 1] == ':');
        }
        assert(authority.skip(i + 1) =~= port);
    }
    text::lemma_last_at(host, ':');
    let k = last_at(host, ':');
    if k >= 0 {
        assert(host[k] == ':');
    }
}

} // verus!
