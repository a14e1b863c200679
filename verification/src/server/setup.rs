//! The first configuration: which browsers there may be, which servers answer, and what is
//! written.

use vstd::prelude::*;
use vstd::string::*;

use crate::paths::{join_path, path_joined, Platform};
use crate::server::{DetectedBrowser, SetupPayload, TestLlmResult};
use crate::text::{chars_of, decimal, push_decimal, trim_trailing, without_trailing};

verus! {

/// A browser that may be installed: its name, its kind, and where its history would be.
pub struct Candidate {
    pub name: String,
    pub kind: String,
    pub path: String,
}

/// What a browser that may be installed stands for.
pub open spec fn candidate(c: Candidate) -> (Seq<char>, Seq<char>, Seq<char>) {
    (c.name@, c.kind@, c.path@)
}

/// What browsers that may be installed stand for.
pub open spec fn candidates_of(list: Seq<Candidate>) -> Seq<(Seq<char>, Seq<char>, Seq<char>)> {
    list.map_values(|c: Candidate| candidate(c))
}

/// The directory under which browsers keep their data.
pub open spec fn local_dir(home: Seq<char>, local_app_data: Option<String>) -> Seq<char> {
    match local_app_data {
        Some(d) => d@,
        None => path_joined(Platform::Windows, home, "AppData/Local"@),
    }
}

/// The browsers that a platform has, but for Firefox.
pub open spec fn platform_browsers(
    platform: Platform,
    home: Seq<char>,
    local_app_data: Option<String>,
) -> Seq<(Seq<char>, Seq<char>, Seq<char>)> {
    let local = local_dir(home, local_app_data);
    match platform {
        Platform::Macos => seq![
            (
                "Orion"@,
                "orion"@,
                path_joined(
                    platform,
                    home,
                    "Library/Application Support/Orion/Defaults/history"@,
                ),
            ),
            ("Safari"@, "safari"@, path_joined(platform, home, "Library/Safari/History.db"@)),
            (
                "Chrome"@,
                "chrome"@,
                path_joined(
                    platform,
                    home,
                    "Library/Application Support/Google/Chrome/Default/History"@,
                ),
            ),
            (
                "Brave"@,
                "brave"@,
                path_joined(
                    platform,
                    home,
                    "Library/Application Support/BraveSoftware/Brave-Browser/Default/History"@,
                ),
            ),
            (
                "Arc"@,
                "arc"@,
                path_joined(
                    platform,
                    home,
                    "Library/Application Support/Arc/User Data/Default/History"@,
                ),
            ),
            (
                "Edge"@,
                "edge"@,
                path_joined(
                    platform,
                    home,
                    "Library/Application Support/Microsoft Edge/Default/History"@,
                ),
            ),
        ],
        Platform::Linux => seq![
            (
                "Chrome"@,
                "chrome"@,
                path_joined(platform, home, ".config/google-chrome/Default/History"@),
            ),
            (
                "Brave"@,
                "brave"@,
                path_joined(platform, home, ".config/BraveSoftware/Brave-Browser/Default/History"@),
            ),
            (
                "Chromium"@,
                "chromium"@,
                path_joined(platform, home, ".config/chromium/Default/History"@),
            ),
            (
                "Edge"@,
                "edge"@,
                path_joined(platform, home, ".config/microsoft-edge/Default/History"@),
            ),
        ],
        Platform::Windows => seq![
            (
                "Chrome"@,
                "chrome"@,
                path_joined(platform, local, "Google/Chrome/User Data/Default/History"@),
            ),
            (
                "Brave"@,
                "brave"@,
                path_joined(
                    platform,
                    local,
                    "BraveSoftware/Brave-Browser/User Data/Default/History"@,
                ),
            ),
            (
                "Chromium"@,
                "chromium"@,
                path_joined(platform, local, "Chromium/User Data/Default/History"@),
            ),
            (
                "Edge"@,
                "edge"@,
                path_joined(platform, local, "Microsoft/Edge/User Data/Default/History"@),
            ),
        ],
        Platform::Other => Seq::empty(),
    }
}

/// Where Firefox keeps its profiles.
pub open spec fn profiles_dir(
    platform: Platform,
    home: Seq<char>,
    app_data: Option<String>,
) -> Seq<char> {
    match platform {
        Platform::Macos => path_joined(
            platform,
            home,
            "Library/Application Support/Firefox/Profiles"@,
        ),
        Platform::Windows => path_joined(
            platform,
            match app_data {
                Some(d) => d@,
                None => path_joined(platform, home, "AppData/Roaming"@),
            },
            "Mozilla/Firefox/Profiles"@,
        ),
        _ => path_joined(platform, home, ".mozilla/firefox"@),
    }
}

/// Where Firefox keeps its profiles.
pub fn firefox_profiles_dir(platform: Platform, home: &str, app_data: &Option<String>) -> (r: String)
    ensures
        r@ == profiles_dir(platform, home@, *app_data),
{
    match platform {
        Platform::Macos => join_path(
            platform,
            home,
            "Library/Application Support/Firefox/Profiles",
        ),
        Platform::Windows => {
            let base: String = match app_data {
                Some(d) => d.clone(),
                None => join_path(platform, home, "AppData/Roaming"),
            };
            join_path(platform, base.as_str(), "Mozilla/Firefox/Profiles")
        },
        _ => join_path(platform, home, ".mozilla/firefox"),
    }
}

/// The place of the profile that was changed last, among the first `n`; of several the last.
pub open spec fn newest_place(profiles: Seq<(i128, String)>, n: int) -> int
    decreases n,
{
    if n <= 1 {
        0
    } else {
        let b = newest_place(profiles, n - 1);
        if profiles[n - 1].0 >= profiles[b].0 {
            n - 1
        } else {
            b
        }
    }
}

/// The history of Firefox: that of the profile that was changed last, or where it would be in a
/// default one.
pub open spec fn firefox_history(
    platform: Platform,
    dir: Seq<char>,
    profiles: Seq<(i128, String)>,
) -> Seq<char> {
    if profiles.len() == 0 {
        path_joined(platform, dir, "default/places.sqlite"@)
    } else {
        profiles[newest_place(profiles, profiles.len() as int)].1@
    }
}

/// The history of Firefox, from the times at which those of its profiles were changed.
pub fn firefox_path(platform: Platform, dir: &str, profiles: &Vec<(i128, String)>) -> (r: String)
    ensures
        r@ == firefox_history(platform, dir@, profiles@),
{
    if profiles.len() == 0 {
        return join_path(platform, dir, "default/places.sqlite");
    }
    let mut best: usize = 0;
    let mut i: usize = 1;
    while i < profiles.len()
        invariant
            1 <= i <= profiles@.len(),
            best < i,
            best == newest_place(profiles@, i as int),
        decreases profiles@.len() - i,
    {
        if profiles[i].0 >= profiles[best].0 {
            best = i;
        }
        i = i + 1;
    }
    profiles[best].1.clone()
}

/// No profile was changed later than the one that is taken.
pub proof fn law_the_newest_profile_is_taken(profiles: Seq<(i128, String)>, n: int)
    requires
        1 <= n <= profiles.len(),
    ensures
        0 <= newest_place(profiles, n) < n,
        forall|i: int|
            0 <= i < n ==> (#[trigger] profiles[i]).0 <= profiles[newest_place(profiles, n)].0,
    decreases n,
{
    if n > 1 {
        law_the_newest_profile_is_taken(profiles, n - 1);
    }
}

/// Adds a browser that may be installed.
fn push_candidate(list: &mut Vec<Candidate>, name: &str, kind: &str, path: String)
    ensures
        candidates_of(final(list)@) == candidates_of(old(list)@).push((name@, kind@, path@)),
{
    let ghost before = list@;
    let c = Candidate { name: name.to_owned(), kind: kind.to_owned(), path };
    list.push(c);
    assert(candidates_of(list@) =~= candidates_of(before).push(candidate(c)));
}

/// The browsers that may be installed, Firefox last.
pub fn browser_candidates(
    platform: Platform,
    home: &str,
    local_app_data: &Option<String>,
    firefox: String,
) -> (r: Vec<Candidate>)
    ensures
        candidates_of(r@) == platform_browsers(platform, home@, *local_app_data).push(
            ("Firefox"@, "firefox"@, firefox@),
        ),
{
    let mut r: Vec<Candidate> = Vec::new();
    let ghost wanted = platform_browsers(platform, home@, *local_app_data);
    match platform {
        Platform::Macos => {
            push_candidate(
                &mut r,
                "Orion",
                "orion",
                join_path(platform, home, "Library/Application Support/Orion/Defaults/history"),
            );
            push_candidate(
                &mut r,
                "Safari",
                "safari",
                join_path(platform, home, "Library/Safari/History.db"),
            );
            push_candidate(
                &mut r,
                "Chrome",
                "chrome",
                join_path(
                    platform,
                    home,
                    "Library/Application Support/Google/Chrome/Default/History",
                ),
            );
            push_candidate(
                &mut r,
                "Brave",
                "brave",
                join_path(
                    platform,
                    home,
                    "Library/Application Support/BraveSoftware/Brave-Browser/Default/History",
                ),
            );
            push_candidate(
                &mut r,
                "Arc",
                "arc",
                join_path(
                    platform,
                    home,
                    "Library/Application Support/Arc/User Data/Default/History",
                ),
            );
            push_candidate(
                &mut r,
                "Edge",
                "edge",
                join_path(
                    platform,
                    home,
                    "Library/Application Support/Microsoft Edge/Default/History",
                ),
            );
        },
        Platform::Linux => {
            push_candidate(
                &mut r,
                "Chrome",
                "chrome",
                join_path(platform, home, ".config/google-chrome/Default/History"),
            );
            push_candidate(
                &mut r,
                "Brave",
                "brave",
                join_path(
                    platform,
                    home,
                    ".config/BraveSoftware/Brave-Browser/Default/History",
                ),
            );
            push_candidate(
                &mut r,
                "Chromium",
                "chromium",
                join_path(platform, home, ".config/chromium/Default/History"),
            );
            push_candidate(
                &mut r,
                "Edge",
                "edge",
                join_path(platform, home, ".config/microsoft-edge/Default/History"),
            );
        },
        Platform::Windows => {
            let local: String = match local_app_data {
                Some(d) => d.clone(),
                None => join_path(platform, home, "AppData/Local"),
            };
            push_candidate(
                &mut r,
                "Chrome",
                "chrome",
                join_path(platform, local.as_str(), "Google/Chrome/User Data/Default/History"),
            );
            push_candidate(
                &mut r,
                "Brave",
                "brave",
                join_path(
                    platform,
                    local.as_str(),
                    "BraveSoftware/Brave-Browser/User Data/Default/History",
                ),
            );
            push_candidate(
                &mut r,
                "Chromium",
                "chromium",
                join_path(platform, local.as_str(), "Chromium/User Data/Default/History"),
            );
            push_candidate(
                &mut r,
                "Edge",
                "edge",
                join_path(platform, local.as_str(), "Microsoft/Edge/User Data/Default/History"),
            );
        },
        Platform::Other => {},
    }
    assert(candidates_of(r@) =~= wanted);
    push_candidate(&mut r, "Firefox", "firefox", firefox);
    r
}

/// What is said of a browser that may be installed.
pub fn detected(c: Candidate, exists: bool) -> (r: DetectedBrowser)
    ensures
        r.name == c.name,
        r.kind == c.kind,
        r.path == c.path,
        r.exists == exists,
{
    DetectedBrowser { name: c.name, kind: c.kind, path: c.path, exists }
}

/// The places at which a server is tried, one after the other.
pub open spec fn probe_paths() -> Seq<Seq<char>> {
    seq!["/v1/models"@, "/api/tags"@, "/health"@]
}

/// The places at which a server is tried, and their URLs.
pub fn probe_targets(base_url: &str) -> (r: Vec<(String, String)>)
    ensures
        r@.len() == probe_paths().len(),
        forall|i: int|
            0 <= i < r@.len() ==> (#[trigger] r@[i]).0@ == probe_paths()[i] && r@[i].1@
                == without_trailing(base_url@, '/') + probe_paths()[i],
{
    let base: &str = trim_trailing(base_url, '/');
    let mut a: String = base.to_owned();
    a.append("/v1/models");
    let mut b: String = base.to_owned();
    b.append("/api/tags");
    let mut c: String = base.to_owned();
    c.append("/health");
    vec![
        ("/v1/models".to_owned(), a),
        ("/api/tags".to_owned(), b),
        ("/health".to_owned(), c),
    ]
}

/// What is said of a server: the place that answered, where one did.
pub fn probe_result(answered: Option<String>) -> (r: TestLlmResult)
    ensures
        r.ok == answered is Some,
        r.message@ == match answered {
            Some(ep) => "Connected ("@ + ep@ + ")"@,
            None => "Could not reach LLM server"@,
        },
{
    match answered {
        Some(ep) => {
            let mut message: String = "Connected (".to_owned();
            message.append(ep.as_str());
            message.append(")");
            TestLlmResult { ok: true, message }
        },
        None => TestLlmResult { ok: false, message: "Could not reach LLM server".to_owned() },
    }
}

/// A text as it stands between quotes in a configuration file.
pub open spec fn quoted(s: Seq<char>) -> Seq<char>
    decreases s.len(),
{
    if s.len() == 0 {
        Seq::empty()
    } else if s.last() == '\\' {
        quoted(s.drop_last()) + "\\\\"@
    } else if s.last() == '"' {
        quoted(s.drop_last()) + "\\\""@
    } else {
        quoted(s.drop_last()).push(s.last())
    }
}

/// A text as it stands between quotes in a configuration file.
pub fn quote(s: &str) -> (r: String)
    ensures
        r@ == quoted(s@),
{
    let v: Vec<char> = chars_of(s);
    let mut out: String = String::new();
    let mut i: usize = 0;
    assert(out@ =~= quoted(s@.take(0)));
    while i < v.len()
        invariant
            i <= v@.len(),
            v@ == s@,
            out@ == quoted(s@.take(i as int)),
        decreases v@.len() - i,
    {
        let ghost t = s@.take(i as int + 1);
        assert(t.drop_last() =~= s@.take(i as int));
        assert(t.last() == v@[i as int]);
        if v[i] == '\\' {
            out.append("\\\\");
        } else if v[i] == '"' {
            out.append("\\\"");
        } else {
            out.push(v[i]);
        }
        i = i + 1;
    }
    assert(s@.take(s@.len() as int) =~= s@);
    out
}

/// A text, or another where it is empty.
pub open spec fn filled_or(s: Seq<char>, other: Seq<char>) -> Seq<char> {
    if s.len() == 0 {
        other
    } else {
        s
    }
}

/// The part of a configuration about the model. An empty key is left out.
pub open spec fn llm_section(p: SetupPayload) -> Seq<char> {
    let base = "[llm]\nprovider = \""@ + quoted(filled_or(p.llm_provider@, "lm_studio"@))
        + "\"\nbase_url = \""@ + quoted(p.llm_base_url@) + "\"\nmodel = \""@ + quoted(p.llm_model@)
        + "\"\n"@;
    match p.llm_api_key {
        Some(key) => if key@.len() > 0 {
            base + "api_key = \""@ + quoted(key@) + "\"\n"@
        } else {
            base
        },
        None => base,
    }
}

/// The minutes between two background runs.
pub open spec fn chosen_interval(p: SetupPayload) -> u64 {
    match p.sync_interval_mins {
        Some(n) => n,
        None => 60,
    }
}

/// A new configuration, as it is written.
pub open spec fn config_text(p: SetupPayload) -> Seq<char> {
    "[browser]\nhistory_db_path = \""@ + quoted(p.browser_path@) + "\"\nkind = \""@ + quoted(
        filled_or(p.browser_kind@, "chromium"@),
    ) + "\"\n\n[data]\ndir = \""@ + quoted(p.data_dir@) + "\"\n\n"@ + llm_section(p)
        + "\n[sync]\ninterval_mins = "@ + decimal(chosen_interval(p) as nat) + "\n"@
}

/// The part of a configuration about the model.
fn write_llm_section(p: &SetupPayload) -> (r: String)
    ensures
        r@ == llm_section(*p),
{
    let provider: &str = if p.llm_provider.as_str().unicode_len() == 0 {
        "lm_studio"
    } else {
        p.llm_provider.as_str()
    };
    let mut out: String = "[llm]\nprovider = \"".to_owned();
    out.append(quote(provider).as_str());
    out.append("\"\nbase_url = \"");
    out.append(quote(p.llm_base_url.as_str()).as_str());
    out.append("\"\nmodel = \"");
    out.append(quote(p.llm_model.as_str()).as_str());
    out.append("\"\n");
    if let Some(key) = &p.llm_api_key {
        if key.as_str().unicode_len() > 0 {
            out.append("api_key = \"");
            out.append(quote(key.as_str()).as_str());
            out.append("\"\n");
        }
    }
    out
}

/// A new configuration, as it is written.
pub fn setup_config(p: &SetupPayload) -> (r: String)
    ensures
        r@ == config_text(*p),
{
    let kind: &str = if p.browser_kind.as_str().unicode_len() == 0 {
        "chromium"
    } else {
        p.browser_kind.as_str()
    };
    let interval: u64 = match p.sync_interval_mins {
        Some(n) => n,
        None => 60,
    };
    let mut out: String = "[browser]\nhistory_db_path = \"".to_owned();
    out.append(quote(p.browser_path.as_str()).as_str());
    out.append("\"\nkind = \"");
    out.append(quote(kind).as_str());
    out.append("\"\n\n[data]\ndir = \"");
    out.append(quote(p.data_dir.as_str()).as_str());
    out.append("\"\n\n");
    out.append(write_llm_section(p).as_str());
    out.append("\n[sync]\ninterval_mins = ");
    push_decimal(&mut out, interval);
    out.append("\n");
    out
}

/// What a text between quotes in a configuration file stands for: a backslash goes, and the
/// character behind it counts as it is.
pub open spec fn unquoted(s: Seq<char>) -> Seq<char>
    decreases s.len(),
{
    if s.len() == 0 {
        Seq::empty()
    } else if s[0] == '\\' && s.len() >= 2 {
        seq![s[1]] + unquoted(s.skip(2))
    } else {
        seq![s[0]] + unquoted(s.skip(1))
    }
}

/// What is written between quotes is read again as it was.
pub proof fn law_quoted_text_is_read_again(s: Seq<char>)
    ensures
        unquoted(quoted(s)) == s,
    decreases s.len(),
{
    reveal_strlit("\\\\");
    reveal_strlit("\\\"");
    assert("\\\\"@ =~= seq!['\\', '\\']);
    assert("\\\""@ =~= seq!['\\', '"']);
    if s.len() == 0 {
        assert(unquoted(quoted(s)) =~= s);
    } else {
        lemma_quoted_front(s);
        let rest = quoted(s.drop_first());
        law_quoted_text_is_read_again(s.drop_first());
        let whole = quoted(s);
        if s[0] == '\\' || s[0] == '"' {
            assert(whole[0] == '\\');
            assert(whole[1] == s[0]);
            assert(whole.skip(2) =~= rest);
        } else {
            assert(whole[0] == s[0]);
            assert(whole.skip(1) =~= rest);
        }
        assert(s =~= seq![s[0]] + s.drop_first());
    }
}

/// A character as it stands between quotes.
pub open spec fn quoted_char(c: char) -> Seq<char> {
    if c == '\\' {
        "\\\\"@
    } else if c == '"' {
        "\\\""@
    } else {
        seq![c]
    }
}

proof fn lemma_quoted_front(s: Seq<char>)
    requires
        s.len() > 0,
    ensures
        quoted(s) == quoted_char(s[0]) + quoted(s.drop_first()),
    decreases s.len(),
{
    let last = quoted_char(s.last());
    assert(quoted(s) =~= quoted(s.drop_last()) + last);
    if s.len() == 1 {
        assert(s.drop_last() =~= Seq::empty());
        assert(s.drop_first() =~= Seq::empty());
        assert(quoted(s) =~= quoted_char(s[0]) + quoted(s.drop_first()));
    } else {
        lemma_quoted_front(s.drop_last());
        let t = s.drop_first();
        assert(s.drop_last().drop_first() =~= t.drop_last());
        assert(quoted(t) =~= quoted(t.drop_last()) + quoted_char(t.last()));
        assert(quoted(s) =~= quoted_char(s[0]) + quoted(t));
    }
}

/// What is written of a configuration has each value under its name, quoted: where the history is
/// and of which browser, where the data goes, the model and its server, its key where there is
/// one, and the minutes between runs, an hour where none are chosen.
pub proof fn law_every_value_is_written(
    p: SetupPayload,
    kind: Seq<char>,
    provider: Seq<char>,
    key: Seq<char>,
    mins: nat,
)
    requires
        kind == if p.browser_kind@.len() == 0 {
            "chromium"@
        } else {
            p.browser_kind@
        },
        provider == if p.llm_provider@.len() == 0 {
            "lm_studio"@
        } else {
            p.llm_provider@
        },
        key == if p.llm_api_key is Some {
            p.llm_api_key->0@
        } else {
            Seq::empty()
        },
        mins == if p.sync_interval_mins is Some {
            p.sync_interval_mins->0
        } else {
            60
        },
    ensures
        ({
            let model = "[llm]\nprovider = \""@ + quoted(provider) + "\"\nbase_url = \""@ + quoted(
                p.llm_base_url@,
            ) + "\"\nmodel = \""@ + quoted(p.llm_model@) + "\"\n"@;
            let whole = if key.len() == 0 {
                model
            } else {
                model + "api_key = \""@ + quoted(key) + "\"\n"@
            };
            config_text(p) == "[browser]\nhistory_db_path = \""@ + quoted(p.browser_path@)
                + "\"\nkind = \""@ + quoted(kind) + "\"\n\n[data]\ndir = \""@ + quoted(p.data_dir@)
                + "\"\n\n"@ + whole + "\n[sync]\ninterval_mins = "@ + decimal(mins) + "\n"@
        }),
{
}

} // verus!
