//! The program around the server: what its windows show, and what its menu does.

use vstd::prelude::*;
use vstd::string::*;

use crate::config::{LlmProvider, Settings};
use crate::text::{decimal, push_decimal, same_text};

verus! {

/// The port that is shown where the server does not say which it has.
pub const FALLBACK_PORT: u16 = 3000;

/// Where the main window begins: with the search, or with the setup where nothing is configured.
pub open spec fn first_url(port: u16, configured: bool) -> Seq<char> {
    "http://127.0.0.1:"@ + decimal(port as nat) + if configured {
        "/"@
    } else {
        "/setup"@
    }
}

/// Where the main window begins.
pub fn startup_url(port: u16, configured: bool) -> (r: String)
    ensures
        r@ == first_url(port, configured),
{
    let mut out: String = "http://127.0.0.1:".to_owned();
    push_decimal(&mut out, port as u64);
    if configured {
        out.append("/");
    } else {
        out.append("/setup");
    }
    out
}

/// Where the small search window is.
pub fn palette_url(port: u16) -> (r: String)
    ensures
        r@ == "http://127.0.0.1:"@ + decimal(port as nat) + "/palette"@,
{
    let mut out: String = "http://127.0.0.1:".to_owned();
    push_decimal(&mut out, port as u64);
    out.append("/palette");
    out
}

/// An entry of the menu.
#[derive(Debug, Clone, Copy, PartialEq, Eq, Structural)]
pub enum MenuAction {
    Open,
    Search,
    IndexNow,
    PauseIndex,
    Autolaunch,
    Quit,
    Nothing,
}

/// The entry of the menu with a name.
pub fn menu_action(id: &str) -> (r: MenuAction)
    ensures
        r == if id@ == "open"@ {
            MenuAction::Open
        } else if id@ == "search"@ {
            MenuAction::Search
        } else if id@ == "index_now"@ {
            MenuAction::IndexNow
        } else if id@ == "pause_index"@ {
            MenuAction::PauseIndex
        } else if id@ == "autolaunch"@ {
            MenuAction::Autolaunch
        } else if id@ == "quit"@ {
            MenuAction::Quit
        } else {
            MenuAction::Nothing
        },
{
    if same_text(id, "open") {
        MenuAction::Open
    } else if same_text(id, "search") {
        MenuAction::Search
    } else if same_text(id, "index_now") {
        MenuAction::IndexNow
    } else if same_text(id, "pause_index") {
        MenuAction::PauseIndex
    } else if same_text(id, "autolaunch") {
        MenuAction::Autolaunch
    } else if same_text(id, "quit") {
        MenuAction::Quit
    } else {
        MenuAction::Nothing
    }
}

/// The label of the entry that pauses indexing, by whether it is paused.
pub fn pause_label(paused: bool) -> (r: String)
    ensures
        r@ == if paused {
            "Resume Indexing"@
        } else {
            "Pause Indexing"@
        },
{
    if paused {
        "Resume Indexing".to_owned()
    } else {
        "Pause Indexing".to_owned()
    }
}

/// The label of the entry that launches the program at login, by whether it does.
pub fn autolaunch_label(enabled: bool) -> (r: String)
    ensures
        r@ == if enabled {
            "✓ Launch at Login"@
        } else {
            "Launch at Login"@
        },
{
    if enabled {
        "✓ Launch at Login".to_owned()
    } else {
        "Launch at Login".to_owned()
    }
}

/// Whether pages are embedded: not where that is switched off or no model answers.
pub fn embeds(settings: &Settings) -> (r: bool)
    ensures
        r == (settings.embed.enabled && settings.llm.provider != LlmProvider::Disabled),
{
    settings.embed.enabled && settings.llm.provider != LlmProvider::Disabled
}

/// A page as it is shown when one is picked: its title with its URL dimmed behind it, or its URL
/// where it has no title.
pub open spec fn pick_line(url: Seq<char>, title: Seq<char>) -> Seq<char> {
    if title.len() == 0 {
        url
    } else {
        title + "  \u{1b}[2m"@ + url + "\u{1b}[0m"@
    }
}

/// A page as it is shown when one is picked.
pub fn pick_display(url: &str, title: &str) -> (r: String)
    ensures
        r@ == pick_line(url@, title@),
{
    if title.unicode_len() == 0 {
        return url.to_owned();
    }
    let mut out: String = title.to_owned();
    out.append("  \u{1b}[2m");
    out.append(url);
    out.append("\u{1b}[0m");
    out
}

} // verus!
