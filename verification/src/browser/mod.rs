//! The histories of browsers.

pub mod firefox;
pub mod orion;
pub mod safari;

use vstd::prelude::*;
use vstd::string::*;

use crate::config::{BrowserKind, BrowserSettings};
use crate::order::{Key, Rank};
use crate::time::Timestamp;
use crate::text::opt;

verus! {

/// A page of a browser's history.
#[derive(Debug)]
pub struct HistoryItem {
    pub id: i64,
    pub url: String,
    pub title: Option<String>,
    pub host: String,
    pub last_visit_time: Timestamp,
    pub visit_count: i64,
}

/// What a page of a history stands for.
#[verifier::ext_equal]
pub struct Visited {
    pub id: i64,
    pub url: Seq<char>,
    pub title: Option<Seq<char>>,
    pub host: Seq<char>,
    pub last_visit_time: Timestamp,
    pub visit_count: i64,
}

impl View for HistoryItem {
    type V = Visited;

    open spec fn view(&self) -> Visited {
        Visited {
            id: self.id,
            url: self.url@,
            title: opt(self.title),
            host: self.host@,
            last_visit_time: self.last_visit_time,
            visit_count: self.visit_count,
        }
    }
}

/// What the pages of a history stand for.
pub open spec fn visited(list: Seq<HistoryItem>) -> Seq<Visited> {
    Seq::new(list.len(), |i: int| list[i]@)
}

/// A row of a history lacks a value that every page has.
#[derive(Debug, Clone, Copy, PartialEq, Eq, Structural)]
pub struct MissingValue;

/// How the history of a browser is stored.
#[derive(Debug, Clone, Copy, PartialEq, Eq, Structural)]
pub enum Schema {
    Chromium,
    Orion,
    Firefox,
    Safari,
}

/// How the history of the configured browser is stored. Chrome, Brave, Arc and Edge all store
/// it as Chromium does.
pub fn for_config(settings: &BrowserSettings) -> (r: Schema)
    ensures
        r == match settings.kind {
            BrowserKind::Chromium | BrowserKind::Chrome | BrowserKind::Brave | BrowserKind::Arc
            | BrowserKind::Edge => Schema::Chromium,
            BrowserKind::Orion => Schema::Orion,
            BrowserKind::Firefox => Schema::Firefox,
            BrowserKind::Safari => Schema::Safari,
        },
{
    match settings.kind {
        BrowserKind::Chromium | BrowserKind::Chrome | BrowserKind::Brave | BrowserKind::Arc
        | BrowserKind::Edge => Schema::Chromium,
        BrowserKind::Orion => Schema::Orion,
        BrowserKind::Firefox => Schema::Firefox,
        BrowserKind::Safari => Schema::Safari,
    }
}

/// The sorting key of a number that may be missing: the largest first, and missing ones last.
pub open spec fn largest_first(n: Option<i64>) -> Rank {
    match n {
        Some(n) => Rank { major: 0, minor: -(n as int), text: Seq::empty() },
        None => Rank { major: 1, minor: 0, text: Seq::empty() },
    }
}

/// The sorting key of a number that may be missing: the largest first, and missing ones last.
pub fn largest_first_key(n: Option<i64>) -> (r: Key)
    ensures
        r@ == largest_first(n),
{
    match n {
        Some(n) => Key::numbers(0, -(n as i128)),
        None => Key::numbers(1, 0),
    }
}

} // verus!
