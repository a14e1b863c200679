//! Bringing the index up to date: what is done in which order, and what is logged.

use vstd::prelude::*;
use vstd::string::*;

use crate::browser::{visited, HistoryItem, Visited};
use crate::config::{any_matches, host_from_url, host_of, matches_any, Settings};
use crate::fetch::{FetchResult, Outcome};
use crate::index::search::triples;
use crate::index::store::FetchStatus;
use crate::lists::{lemma_picked_none, lemma_picked_one_more, picked};
use crate::session_log::LogKind;
use crate::text::{decimal, opt, pairs, push_decimal, same_text, texts};
use crate::time::written_time;

verus! {

/// How many pages of the history are read.
pub const BROWSER_HISTORY_FETCH_LIMIT: u32 = 1000;

/// A line for the log.
#[derive(Debug)]
pub struct LogLine {
    pub kind: LogKind,
    pub message: String,
    pub detail: Option<String>,
}

/// What a line for the log stands for.
#[verifier::ext_equal]
pub struct Line {
    pub kind: LogKind,
    pub message: Seq<char>,
    pub detail: Option<Seq<char>>,
}

impl View for LogLine {
    type V = Line;

    open spec fn view(&self) -> Line {
        Line { kind: self.kind, message: self.message@, detail: opt(self.detail) }
    }
}

/// What lines for the log stand for.
pub open spec fn lines(list: Seq<LogLine>) -> Seq<Line> {
    Seq::new(list.len(), |i: int| list[i]@)
}

/// A line about the run itself.
pub open spec fn note(message: Seq<char>) -> Line {
    Line { kind: LogKind::Sync, message, detail: None }
}

/// A line about an error.
pub open spec fn complaint(message: Seq<char>, detail: Seq<char>) -> Line {
    Line { kind: LogKind::Error, message, detail: Some(detail) }
}

/// How far a run has come.
pub enum Stage {
    /// Nothing is done yet.
    Begin,
    /// The times of the browser's database are being read.
    Timing,
    /// The history is being read; the time of the database is to be remembered.
    Reading(Option<String>),
    /// Visits are being entered; the time of the database is to be remembered.
    Registering(Option<String>),
    /// The pages to fetch are being listed; the time of the database is to be remembered.
    Listing(Option<String>),
    /// The time of the database is being remembered, with the pages to fetch known.
    Remembering(Vec<String>),
    /// A page of the list is being fetched.
    Fetching(Vec<String>, usize),
    /// A mark of a page of the list is being entered; these lines are logged then, and the next
    /// page comes after.
    Marking(Vec<String>, usize, Vec<LogLine>),
    /// The text of a page of the list is being entered.
    Storing(Vec<String>, usize),
    /// The index is being asked for the icon of a page of the list.
    Checking(Vec<String>, usize),
    /// The icon of a page of the list is being fetched.
    Loading(Vec<String>, usize),
    /// The icon of a page of the list is being entered.
    Keeping(Vec<String>, usize),
    /// The pages without embedding are being listed.
    Gathering,
    /// A page of the list is being embedded, after so many that were.
    Embedding(Vec<(String, String, String)>, usize, usize),
    /// An embedding is being entered.
    Saving(Vec<(String, String, String)>, usize, usize),
    /// Everything is done.
    Finished,
}

/// What a stage stands for.
pub enum At {
    Begin,
    Timing,
    Reading(Option<Seq<char>>),
    Registering(Option<Seq<char>>),
    Listing(Option<Seq<char>>),
    Remembering(Seq<Seq<char>>),
    Fetching(Seq<Seq<char>>, int),
    Marking(Seq<Seq<char>>, int, Seq<Line>),
    Storing(Seq<Seq<char>>, int),
    Checking(Seq<Seq<char>>, int),
    Loading(Seq<Seq<char>>, int),
    Keeping(Seq<Seq<char>>, int),
    Gathering,
    Embedding(Seq<(Seq<char>, Seq<char>, Seq<char>)>, int, int),
    Saving(Seq<(Seq<char>, Seq<char>, Seq<char>)>, int, int),
    Finished,
}

impl View for Stage {
    type V = At;

    open spec fn view(&self) -> At {
        match self {
            Stage::Begin => At::Begin,
            Stage::Timing => At::Timing,
            Stage::Reading(t) => At::Reading(opt(*t)),
            Stage::Registering(t) => At::Registering(opt(*t)),
            Stage::Listing(t) => At::Listing(opt(*t)),
            Stage::Remembering(urls) => At::Remembering(texts(urls@)),
            Stage::Fetching(urls, i) => At::Fetching(texts(urls@), *i as int),
            Stage::Marking(urls, i, log) => At::Marking(texts(urls@), *i as int, lines(log@)),
            Stage::Storing(urls, i) => At::Storing(texts(urls@), *i as int),
            Stage::Checking(urls, i) => At::Checking(texts(urls@), *i as int),
            Stage::Loading(urls, i) => At::Loading(texts(urls@), *i as int),
            Stage::Keeping(urls, i) => At::Keeping(texts(urls@), *i as int),
            Stage::Gathering => At::Gathering,
            Stage::Embedding(pages, i, n) => At::Embedding(triples(pages@), *i as int, *n as int),
            Stage::Saving(pages, i, n) => At::Saving(triples(pages@), *i as int, *n as int),
            Stage::Finished => At::Finished,
        }
    }
}

/// What happened.
pub enum Event {
    /// The run was started.
    Started,
    /// The time at which the browser's database last changed, and the one remembered.
    Times { current: Option<String>, stored: Option<String> },
    /// The history and the reading list.
    History { items: Vec<HistoryItem>, reading_list: Vec<(String, String)> },
    /// What was to be entered is entered.
    Done,
    /// The pages to fetch.
    Urls(Vec<String>),
    /// What came of fetching a page.
    Page(FetchResult),
    /// Whether the index has the icon.
    HasIcon(bool),
    /// An icon: its host, its type and its bytes.
    Icon(Option<(String, String, Vec<u8>)>),
    /// The pages without embedding: their URL, title and text.
    Pages(Vec<(String, String, String)>),
    /// An embedding.
    Vector(Vec<u8>),
    /// A page could not be embedded.
    EmbedFailed(String),
    /// Embedding a page broke down.
    EmbedPanicked(String),
}

/// What an event stands for.
pub enum Happened {
    Started,
    Times { current: Option<Seq<char>>, stored: Option<Seq<char>> },
    History { items: Seq<Visited>, reading_list: Seq<(Seq<char>, Seq<char>)> },
    Done,
    Urls(Seq<Seq<char>>),
    Page(Outcome),
    HasIcon(bool),
    Icon(Option<(Seq<char>, Seq<char>, Seq<u8>)>),
    Pages(Seq<(Seq<char>, Seq<char>, Seq<char>)>),
    Vector(Seq<u8>),
    EmbedFailed(Seq<char>),
    EmbedPanicked(Seq<char>),
}

impl View for Event {
    type V = Happened;

    open spec fn view(&self) -> Happened {
        match self {
            Event::Started => Happened::Started,
            Event::Times { current, stored } => Happened::Times {
                current: opt(*current),
                stored: opt(*stored),
            },
            Event::History { items, reading_list } => Happened::History {
                items: visited(items@),
                reading_list: pairs(reading_list@),
            },
            Event::Done => Happened::Done,
            Event::Urls(urls) => Happened::Urls(texts(urls@)),
            Event::Page(result) => Happened::Page(result@),
            Event::HasIcon(b) => Happened::HasIcon(*b),
            Event::Icon(icon) => Happened::Icon(
                match icon {
                    Some((host, mime, data)) => Some((host@, mime@, data@)),
                    None => None,
                },
            ),
            Event::Pages(pages) => Happened::Pages(triples(pages@)),
            Event::Vector(v) => Happened::Vector(v@),
            Event::EmbedFailed(e) => Happened::EmbedFailed(e@),
            Event::EmbedPanicked(e) => Happened::EmbedPanicked(e@),
        }
    }
}

/// What to do next.
pub enum Action {
    /// Read the times of the browser's database.
    ReadTimes,
    /// Read the history, up to so many pages, and the reading list.
    ReadHistory { limit: u32 },
    /// Enter visits and hear of URLs.
    Register { visits: Vec<(String, String)>, urls: Vec<String> },
    /// Remember the time of the database.
    Remember { mtime: String },
    /// List pages to fetch, up to so many.
    ListPending { limit: u32 },
    /// Set the status of a page.
    Mark { url: String, status: FetchStatus },
    /// Fetch a page.
    Fetch { url: String },
    /// Enter the text of a page.
    Store { url: String, title: String, body: String },
    /// Ask the index whether it has the icon of a host.
    CheckIcon { host: String },
    /// Fetch the icon of a page.
    FetchIcon { url: String },
    /// Enter an icon.
    StoreIcon { host: String, mime: String, data: Vec<u8> },
    /// Enter a failure to fetch a page.
    Fail { url: String, max_attempts: u32 },
    /// List pages without embedding, up to so many.
    ListUnembedded { limit: u32 },
    /// Embed a text.
    Embed { text: String },
    /// Enter an embedding.
    StoreEmbedding { url: String, bytes: Vec<u8> },
    /// Nothing more.
    Finish,
}

/// What an action stands for.
pub enum Do {
    ReadTimes,
    ReadHistory { limit: u32 },
    Register { visits: Seq<(Seq<char>, Seq<char>)>, urls: Seq<Seq<char>> },
    Remember { mtime: Seq<char> },
    ListPending { limit: u32 },
    Mark { url: Seq<char>, status: FetchStatus },
    Fetch { url: Seq<char> },
    Store { url: Seq<char>, title: Seq<char>, body: Seq<char> },
    CheckIcon { host: Seq<char> },
    FetchIcon { url: Seq<char> },
    StoreIcon { host: Seq<char>, mime: Seq<char>, data: Seq<u8> },
    Fail { url: Seq<char>, max_attempts: u32 },
    ListUnembedded { limit: u32 },
    Embed { text: Seq<char> },
    StoreEmbedding { url: Seq<char>, bytes: Seq<u8> },
    Finish,
}

impl View for Action {
    type V = Do;

    open spec fn view(&self) -> Do {
        match self {
            Action::ReadTimes => Do::ReadTimes,
            Action::ReadHistory { limit } => Do::ReadHistory { limit: *limit },
            Action::Register { visits, urls } => Do::Register {
                visits: pairs(visits@),
                urls: texts(urls@),
            },
            Action::Remember { mtime } => Do::Remember { mtime: mtime@ },
            Action::ListPending { limit } => Do::ListPending { limit: *limit },
            Action::Mark { url, status } => Do::Mark { url: url@, status: *status },
            Action::Fetch { url } => Do::Fetch { url: url@ },
            Action::Store { url, title, body } => Do::Store {
                url: url@,
                title: title@,
                body: body@,
            },
            Action::CheckIcon { host } => Do::CheckIcon { host: host@ },
            Action::FetchIcon { url } => Do::FetchIcon { url: url@ },
            Action::StoreIcon { host, mime, data } => Do::StoreIcon {
                host: host@,
                mime: mime@,
                data: data@,
            },
            Action::Fail { url, max_attempts } => Do::Fail {
                url: url@,
                max_attempts: *max_attempts,
            },
            Action::ListUnembedded { limit } => Do::ListUnembedded { limit: *limit },
            Action::Embed { text } => Do::Embed { text: text@ },
            Action::StoreEmbedding { url, bytes } => Do::StoreEmbedding {
                url: url@,
                bytes: bytes@,
            },
            Action::Finish => Do::Finish,
        }
    }
}

/// What governs a run: the bans, the sizes of its batches, the failures after which a page is
/// given up, and whether pages are embedded.
#[derive(Debug)]
pub struct Plan {
    pub ban: Vec<String>,
    pub fetch_batch: u32,
    pub embed_batch: u32,
    pub max_retries: u32,
    pub embeds: bool,
}

/// What a plan stands for.
pub struct Rules {
    pub ban: Seq<Seq<char>>,
    pub fetch_batch: u32,
    pub embed_batch: u32,
    pub max_retries: u32,
    pub embeds: bool,
}

impl View for Plan {
    type V = Rules;

    open spec fn view(&self) -> Rules {
        Rules {
            ban: texts(self.ban@),
            fetch_batch: self.fetch_batch,
            embed_batch: self.embed_batch,
            max_retries: self.max_retries,
            embeds: self.embeds,
        }
    }
}

impl Plan {
    /// What the settings say of a run.
    pub fn from_settings(settings: &Settings, embeds: bool) -> (r: Plan)
        ensures
            r@.ban == texts(settings.fetch.ban@),
            r@.fetch_batch == settings.sync.fetch_batch,
            r@.embed_batch == settings.sync.embed_batch,
            r@.max_retries == settings.fetch.max_retries,
            r@.embeds == embeds,
    {
        let mut ban: Vec<String> = Vec::new();
        let mut i: usize = 0;
        while i < settings.fetch.ban.len()
            invariant
                i <= settings.fetch.ban@.len(),
                ban@.len() == i,
                forall|k: int| 0 <= k < i ==> (#[trigger] ban@[k])@ == settings.fetch.ban@[k]@,
            decreases settings.fetch.ban@.len() - i,
        {
            ban.push(settings.fetch.ban[i].clone());
            i = i + 1;
        }
        assert(texts(ban@) =~= texts(settings.fetch.ban@));
        Plan {
            ban,
            fetch_batch: settings.sync.fetch_batch,
            embed_batch: settings.sync.embed_batch,
            max_retries: settings.fetch.max_retries,
            embeds,
        }
    }
}

/// The event can happen at this stage.
pub open spec fn expected(at: At, event: Happened) -> bool {
    well_placed(at) && answers(at, event)
}

/// The place in the list that a stage works on is one of the list.
pub open spec fn well_placed(at: At) -> bool {
    match at {
        At::Fetching(urls, i) => 0 <= i < urls.len(),
        At::Marking(urls, i, _) => 0 <= i < urls.len(),
        At::Storing(urls, i) => 0 <= i < urls.len(),
        At::Checking(urls, i) => 0 <= i < urls.len(),
        At::Loading(urls, i) => 0 <= i < urls.len(),
        At::Keeping(urls, i) => 0 <= i < urls.len(),
        At::Embedding(pages, i, n) => 0 <= n <= i < pages.len(),
        At::Saving(pages, i, n) => 0 <= n <= i < pages.len(),
        _ => true,
    }
}

/// The event is of the kind that comes in answer to the action of a stage.
pub open spec fn answers(at: At, event: Happened) -> bool {
    match at {
        At::Begin => event is Started,
        At::Timing => event is Times,
        At::Reading(_) => event matches Happened::History { items, .. } && times_valid(items),
        At::Registering(_) => event is Done,
        At::Listing(_) => event is Urls,
        At::Remembering(_) => event is Done,
        At::Fetching(..) => event is Page,
        At::Marking(..) => event is Done,
        At::Storing(..) => event is Done,
        At::Checking(..) => event is HasIcon,
        At::Loading(..) => event is Icon,
        At::Keeping(..) => event is Done,
        At::Gathering => event is Pages,
        At::Embedding(..) => event is Vector || event is EmbedFailed || event is EmbedPanicked,
        At::Saving(..) => event is Done,
        At::Finished => false,
    }
}

/// The calendar holds the times of all pages.
pub open spec fn times_valid(items: Seq<Visited>) -> bool {
    forall|i: int| 0 <= i < items.len() ==> (#[trigger] items[i]).last_visit_time.valid()
}

/// The visits of a history: those of banned pages do not count.
pub open spec fn visits_of(items: Seq<Visited>, ban: Seq<Seq<char>>) -> Seq<(Seq<char>, Seq<char>)>
    decreases items.len(),
{
    if items.len() == 0 {
        Seq::empty()
    } else {
        let before = visits_of(items.drop_last(), ban);
        let item = items.last();
        if any_matches(item.url, ban) {
            before
        } else {
            before.push(
                (
                    item.url,
                    written_time(
                        item.last_visit_time.secs as int,
                        item.last_visit_time.nanos as int,
                        "%Y-%m-%d %H:%M:%S"@,
                    ),
                ),
            )
        }
    }
}

/// The URLs of links.
pub open spec fn link_urls(list: Seq<(Seq<char>, Seq<char>)>) -> Seq<Seq<char>> {
    Seq::new(list.len(), |i: int| list[i].0)
}

/// A step: the stage after it, the lines for the log, and the action.
pub struct Step {
    pub at: At,
    pub log: Seq<Line>,
    pub action: Do,
}

/// What comes after the pages are fetched.
pub open spec fn after_fetching(rules: Rules, log: Seq<Line>) -> Step {
    if rules.embeds {
        Step {
            at: At::Gathering,
            log,
            action: Do::ListUnembedded { limit: rules.embed_batch },
        }
    } else {
        Step {
            at: At::Finished,
            log: log.push(note("Semantic indexing skipped (no embedding model)"@)).push(
                note("Sync complete"@),
            ),
            action: Do::Finish,
        }
    }
}

/// What comes next in the list of pages to fetch: a banned page is marked, another is fetched.
pub open spec fn page_step(rules: Rules, urls: Seq<Seq<char>>, i: int, log: Seq<Line>) -> Step {
    if i >= urls.len() {
        after_fetching(rules, log)
    } else if any_matches(urls[i], rules.ban) {
        Step {
            at: At::Marking(urls, i, Seq::empty()),
            log,
            action: Do::Mark { url: urls[i], status: FetchStatus::Skip },
        }
    } else {
        Step { at: At::Fetching(urls, i), log, action: Do::Fetch { url: urls[i] } }
    }
}

/// What comes first in the list of pages to fetch.
pub open spec fn first_page_step(rules: Rules, urls: Seq<Seq<char>>) -> Step {
    page_step(
        rules,
        urls,
        0,
        if urls.len() == 0 {
            seq![note("No pages to fetch"@)]
        } else {
            seq![note("Fetching "@ + decimal(urls.len()) + " page(s)"@)]
        },
    )
}

/// What comes next in the list of pages to embed.
pub open spec fn embed_step(
    pages: Seq<(Seq<char>, Seq<char>, Seq<char>)>,
    i: int,
    done: int,
    log: Seq<Line>,
) -> Step {
    if i >= pages.len() {
        Step {
            at: At::Finished,
            log: (if done > 0 {
                log.push(
                    note("Embedding complete — "@ + decimal(done as nat) + " page(s) embedded"@),
                )
            } else {
                log
            }).push(note("Sync complete"@)),
            action: Do::Finish,
        }
    } else {
        Step {
            at: At::Embedding(pages, i, done),
            log,
            action: Do::Embed { text: pages[i].1 + " "@ + pages[i].2 },
        }
    }
}

/// What to do about the outcome of fetching a page.
pub open spec fn outcome_step(rules: Rules, urls: Seq<Seq<char>>, i: int, outcome: Outcome) -> Step {
    let url = urls[i];
    match outcome {
        Outcome::Page(page) => Step {
            at: At::Storing(urls, i),
            log: Seq::empty(),
            action: Do::Store { url, title: page.title, body: page.body },
        },
        Outcome::AuthWall => Step {
            at: At::Marking(urls, i, seq![note("Skipped (auth wall): "@ + url)]),
            log: Seq::empty(),
            action: Do::Mark { url, status: FetchStatus::AuthWall },
        },
        Outcome::Skip => Step {
            at: At::Marking(urls, i, Seq::empty()),
            log: Seq::empty(),
            action: Do::Mark { url, status: FetchStatus::Skip },
        },
        Outcome::Error(e) => Step {
            at: At::Marking(urls, i, seq![complaint("Fetch error: "@ + url, e)]),
            log: Seq::empty(),
            action: Do::Fail { url, max_attempts: rules.max_retries },
        },
    }
}

/// What to do about an event.
pub open spec fn next_step(rules: Rules, at: At, event: Happened) -> Step {
    match (at, event) {
        (At::Begin, _) => Step {
            at: At::Timing,
            log: seq![note("Sync started"@)],
            action: Do::ReadTimes,
        },
        (At::Timing, Happened::Times { current, stored }) => if current != stored {
            Step {
                at: At::Reading(current),
                log: seq![note("Browser history changed — reading new visits"@)],
                action: Do::ReadHistory { limit: BROWSER_HISTORY_FETCH_LIMIT },
            }
        } else {
            Step {
                at: At::Listing(None),
                log: seq![note("Browser history unchanged — checking for pending pages"@)],
                action: Do::ListPending { limit: rules.fetch_batch },
            }
        },
        (At::Reading(mtime), Happened::History { items, reading_list }) => Step {
            at: At::Registering(mtime),
            log: Seq::empty(),
            action: Do::Register {
                visits: visits_of(items, rules.ban),
                urls: link_urls(reading_list),
            },
        },
        (At::Registering(mtime), _) => Step {
            at: At::Listing(mtime),
            log: Seq::empty(),
            action: Do::ListPending { limit: rules.fetch_batch },
        },
        (At::Listing(mtime), Happened::Urls(urls)) => match mtime {
            Some(mtime) => Step {
                at: At::Remembering(urls),
                log: Seq::empty(),
                action: Do::Remember { mtime },
            },
            None => first_page_step(rules, urls),
        },
        (At::Remembering(urls), _) => first_page_step(rules, urls),
        (At::Fetching(urls, i), Happened::Page(outcome)) => outcome_step(rules, urls, i, outcome),
        (At::Marking(urls, i, log), _) => page_step(rules, urls, i + 1, log),
        (At::Storing(urls, i), _) => Step {
            at: At::Checking(urls, i),
            log: Seq::empty(),
            action: Do::CheckIcon { host: host_of(urls[i]) },
        },
        (At::Checking(urls, i), Happened::HasIcon(has)) => if has {
            page_step(rules, urls, i + 1, seq![note("Indexed: "@ + urls[i])])
        } else {
            Step {
                at: At::Loading(urls, i),
                log: Seq::empty(),
                action: Do::FetchIcon { url: urls[i] },
            }
        },
        (At::Loading(urls, i), Happened::Icon(icon)) => match icon {
            Some((host, mime, data)) => Step {
                at: At::Keeping(urls, i),
                log: Seq::empty(),
                action: Do::StoreIcon { host, mime, data },
            },
            None => page_step(rules, urls, i + 1, seq![note("Indexed: "@ + urls[i])]),
        },
        (At::Keeping(urls, i), _) => page_step(
            rules,
            urls,
            i + 1,
            seq![note("Indexed: "@ + urls[i])],
        ),
        (At::Gathering, Happened::Pages(pages)) => embed_step(
            pages,
            0,
            0,
            if pages.len() > 0 {
                seq![note("Embedding "@ + decimal(pages.len()) + " page(s)"@)]
            } else {
                Seq::empty()
            },
        ),
        (At::Embedding(pages, i, done), Happened::Vector(bytes)) => Step {
            at: At::Saving(pages, i, done),
            log: Seq::empty(),
            action: Do::StoreEmbedding { url: pages[i].0, bytes },
        },
        (At::Embedding(pages, i, done), Happened::EmbedFailed(e)) => embed_step(
            pages,
            i + 1,
            done,
            seq![complaint("Embed error: "@ + pages[i].0, e)],
        ),
        (At::Embedding(pages, i, done), Happened::EmbedPanicked(e)) => embed_step(
            pages,
            i + 1,
            done,
            seq![complaint("Embed panic: "@ + pages[i].0, e)],
        ),
        (At::Saving(pages, i, done), _) => embed_step(pages, i + 1, done + 1, Seq::empty()),
        _ => Step { at: At::Finished, log: Seq::empty(), action: Do::Finish },
    }
}

/// The phase of a stage: a run goes through them in falling order.
pub open spec fn phase(at: At) -> nat {
    match at {
        At::Begin => 9,
        At::Timing => 8,
        At::Reading(_) => 7,
        At::Registering(_) => 6,
        At::Listing(_) => 5,
        At::Remembering(_) => 4,
        At::Fetching(..) | At::Marking(..) | At::Storing(..) | At::Checking(..) | At::Loading(..)
        | At::Keeping(..) => 3,
        At::Gathering => 2,
        At::Embedding(..) | At::Saving(..) => 1,
        At::Finished => 0,
    }
}

/// What is left to do in a phase.
pub open spec fn left(at: At) -> int {
    match at {
        At::Fetching(urls, i) => 6 * (urls.len() - i),
        At::Storing(urls, i) => 6 * (urls.len() - i) - 1,
        At::Checking(urls, i) => 6 * (urls.len() - i) - 2,
        At::Loading(urls, i) => 6 * (urls.len() - i) - 3,
        At::Keeping(urls, i) => 6 * (urls.len() - i) - 4,
        At::Marking(urls, i, _) => 6 * (urls.len() - i) - 5,
        At::Embedding(pages, i, _) => 2 * (pages.len() - i),
        At::Saving(pages, i, _) => 2 * (pages.len() - i) - 1,
        _ => 0,
    }
}

/// Every step leads forward: to a later phase, or to less that is left in the same one. So a run
/// ends, however the events fall.
pub proof fn law_every_step_leads_forward(rules: Rules, at: At, event: Happened)
    requires
        expected(at, event),
    ensures
        ({
            let next = next_step(rules, at, event).at;
            phase(next) < phase(at) || (phase(next) == phase(at) && 0 <= left(next) < left(at))
        }),
{
}

/// A run never loses its place: after every step it works on an entry of its list.
pub proof fn law_a_run_keeps_its_place(rules: Rules, at: At, event: Happened)
    requires
        expected(at, event),
    ensures
        well_placed(At::Begin),
        well_placed(next_step(rules, at, event).at),
{
}

/// A banned page is never fetched.
pub proof fn law_banned_pages_are_not_fetched(rules: Rules, at: At, event: Happened)
    requires
        expected(at, event),
    ensures
        next_step(rules, at, event).action matches Do::Fetch { url } ==> !any_matches(
            url,
            rules.ban,
        ),
{
}

/// Visits of banned pages are never entered.
pub proof fn law_banned_visits_are_not_entered(items: Seq<Visited>, ban: Seq<Seq<char>>)
    ensures
        forall|i: int|
            0 <= i < visits_of(items, ban).len() ==> !any_matches(
                (#[trigger] visits_of(items, ban)[i]).0,
                ban,
            ),
    decreases items.len(),
{
    if items.len() > 0 {
        law_banned_visits_are_not_entered(items.drop_last(), ban);
        let before = visits_of(items.drop_last(), ban);
        let now = visits_of(items, ban);
        assert forall|i: int| 0 <= i < now.len() implies !any_matches((#[trigger] now[i]).0, ban) by {
            if i < before.len() {
                assert(now[i] == before[i]);
            }
        }
    }
}

/// A run ends exactly when it has nothing more to do.
pub proof fn law_the_run_ends_when_finished(rules: Rules, at: At, event: Happened)
    requires
        expected(at, event),
    ensures
        next_step(rules, at, event).action is Finish <==> next_step(rules, at, event).at is Finished,
        next_step(rules, at, event).at is Finished ==> next_step(rules, at, event).log.len() > 0
            && next_step(rules, at, event).log.last() == note("Sync complete"@),
{
}

/// A line about the run itself.
fn make_note(message: &str) -> (r: LogLine)
    ensures
        r@ == note(message@),
{
    LogLine { kind: LogKind::Sync, message: message.to_owned(), detail: None }
}

/// A text behind another.
fn concat(a: &str, b: &str) -> (r: String)
    ensures
        r@ == a@ + b@,
{
    let mut out: String = a.to_owned();
    out.append(b);
    out
}

/// A line about an error.
fn make_complaint(what: &str, url: &str, detail: String) -> (r: LogLine)
    ensures
        r@ == complaint(what@ + url@, detail@),
{
    LogLine { kind: LogKind::Error, message: concat(what, url), detail: Some(detail) }
}

/// A line that counts something.
fn make_count(before: &str, n: usize, after: &str) -> (r: LogLine)
    ensures
        r@ == note(before@ + decimal(n as nat) + after@),
{
    let mut out: String = before.to_owned();
    push_decimal(&mut out, n as u64);
    out.append(after);
    LogLine { kind: LogKind::Sync, message: out, detail: None }
}

/// Adds a line.
fn push_line(log: &mut Vec<LogLine>, line: LogLine)
    ensures
        lines(final(log)@) == lines(old(log)@).push(line@),
{
    log.push(line);
    assert(lines(log@) =~= lines(old(log)@).push(line@));
}

/// One line.
fn one_line(line: LogLine) -> (r: Vec<LogLine>)
    ensures
        lines(r@) == seq![line@],
{
    let r: Vec<LogLine> = vec![line];
    assert(lines(r@) =~= seq![line@]);
    r
}

/// No line.
fn no_lines() -> (r: Vec<LogLine>)
    ensures
        lines(r@) == Seq::<Line>::empty(),
{
    let r: Vec<LogLine> = Vec::new();
    assert(lines(r@) =~= Seq::<Line>::empty());
    r
}

/// What a step stands for.
pub open spec fn step_of(stage: Stage, log: Seq<LogLine>, action: Action) -> Step {
    Step { at: stage@, log: lines(log), action: action@ }
}

/// What comes after the pages are fetched.
fn go_on_after_fetching(plan: &Plan, mut log: Vec<LogLine>) -> (r: (Stage, Vec<LogLine>, Action))
    ensures
        step_of(r.0, r.1@, r.2) == after_fetching(plan@, lines(log@)),
{
    if plan.embeds {
        (Stage::Gathering, log, Action::ListUnembedded { limit: plan.embed_batch })
    } else {
        push_line(&mut log, make_note("Semantic indexing skipped (no embedding model)"));
        push_line(&mut log, make_note("Sync complete"));
        (Stage::Finished, log, Action::Finish)
    }
}

/// What comes next in the list of pages to fetch.
fn go_to_page(plan: &Plan, urls: Vec<String>, i: usize, log: Vec<LogLine>) -> (r: (
    Stage,
    Vec<LogLine>,
    Action,
))
    ensures
        step_of(r.0, r.1@, r.2) == page_step(plan@, texts(urls@), i as int, lines(log@)),
{
    assert(texts(urls@).len() == urls@.len());
    if i >= urls.len() {
        return go_on_after_fetching(plan, log);
    }
    let url: String = urls[i].clone();
    assert(texts(urls@)[i as int] == url@);
    if matches_any(url.as_str(), &plan.ban) {
        (
            Stage::Marking(urls, i, no_lines()),
            log,
            Action::Mark { url, status: FetchStatus::Skip },
        )
    } else {
        (Stage::Fetching(urls, i), log, Action::Fetch { url })
    }
}

/// What comes first in the list of pages to fetch.
fn go_to_first_page(plan: &Plan, urls: Vec<String>) -> (r: (Stage, Vec<LogLine>, Action))
    ensures
        step_of(r.0, r.1@, r.2) == first_page_step(plan@, texts(urls@)),
{
    assert(texts(urls@).len() == urls@.len());
    let log: Vec<LogLine> = if urls.len() == 0 {
        one_line(make_note("No pages to fetch"))
    } else {
        one_line(make_count("Fetching ", urls.len(), " page(s)"))
    };
    go_to_page(plan, urls, 0, log)
}

/// What comes next in the list of pages to embed.
fn go_to_embedding(
    pages: Vec<(String, String, String)>,
    i: usize,
    done: usize,
    mut log: Vec<LogLine>,
) -> (r: (Stage, Vec<LogLine>, Action))
    ensures
        step_of(r.0, r.1@, r.2) == embed_step(triples(pages@), i as int, done as int, lines(log@)),
{
    assert(triples(pages@).len() == pages@.len());
    if i >= pages.len() {
        if done > 0 {
            push_line(&mut log, make_count("Embedding complete — ", done, " page(s) embedded"));
        }
        push_line(&mut log, make_note("Sync complete"));
        return (Stage::Finished, log, Action::Finish);
    }
    let mut text: String = pages[i].1.clone();
    text.append(" ");
    text.append(pages[i].2.as_str());
    assert(text@ == triples(pages@)[i as int].1 + " "@ + triples(pages@)[i as int].2);
    (Stage::Embedding(pages, i, done), log, Action::Embed { text })
}

/// A list has an entry at this place.
fn url_at(urls: &Vec<String>, i: usize) -> (r: String)
    requires
        i < texts(urls@).len(),
    ensures
        r@ == texts(urls@)[i as int],
{
    urls[i].clone()
}

/// What to do about the outcome of fetching a page.
fn go_on_from_outcome(plan: &Plan, urls: Vec<String>, i: usize, result: FetchResult) -> (r: (
    Stage,
    Vec<LogLine>,
    Action,
))
    requires
        i < texts(urls@).len(),
    ensures
        step_of(r.0, r.1@, r.2) == outcome_step(plan@, texts(urls@), i as int, result@),
{
    let url: String = url_at(&urls, i);
    match result {
        FetchResult::Page(page) => (
            Stage::Storing(urls, i),
            no_lines(),
            Action::Store { url, title: page.title, body: page.body },
        ),
        FetchResult::AuthWall => {
            let line = LogLine {
                kind: LogKind::Sync,
                message: concat("Skipped (auth wall): ", url.as_str()),
                detail: None,
            };
            (
                Stage::Marking(urls, i, one_line(line)),
                no_lines(),
                Action::Mark { url, status: FetchStatus::AuthWall },
            )
        },
        FetchResult::Skip => (
            Stage::Marking(urls, i, no_lines()),
            no_lines(),
            Action::Mark { url, status: FetchStatus::Skip },
        ),
        FetchResult::Error(e) => (
            Stage::Marking(
                urls,
                i,
                one_line(make_complaint("Fetch error: ", url.as_str(), e)),
            ),
            no_lines(),
            Action::Fail { url, max_attempts: plan.max_retries },
        ),
    }
}

/// A page of the list is done: it is logged, and the next one comes.
fn go_on_indexed(plan: &Plan, urls: Vec<String>, i: usize) -> (r: (Stage, Vec<LogLine>, Action))
    requires
        i < texts(urls@).len(),
    ensures
        step_of(r.0, r.1@, r.2) == page_step(
            plan@,
            texts(urls@),
            i + 1,
            seq![note("Indexed: "@ + texts(urls@)[i as int])],
        ),
{
    let line = LogLine {
        kind: LogKind::Sync,
        message: concat("Indexed: ", url_at(&urls, i).as_str()),
        detail: None,
    };
    assert(i < urls.len());
    go_to_page(plan, urls, i + 1, one_line(line))
}

/// The visits of a history: those of banned pages do not count.
pub fn collect_visits(items: &Vec<HistoryItem>, ban: &Vec<String>) -> (r: Vec<(String, String)>)
    requires
        times_valid(visited(items@)),
    ensures
        pairs(r@) == visits_of(visited(items@), texts(ban@)),
{
    let ghost all = visited(items@);
    let mut out: Vec<(String, String)> = Vec::new();
    let mut i: usize = 0;
    assert(pairs(out@) =~= visits_of(all.take(0), texts(ban@)));
    while i < items.len()
        invariant
            i <= items@.len(),
            all == visited(items@),
            times_valid(all),
            pairs(out@) == visits_of(all.take(i as int), texts(ban@)),
        decreases items@.len() - i,
    {
        let ghost t = all.take(i as int + 1);
        assert(t.drop_last() =~= all.take(i as int));
        assert(t.last() == items@[i as int]@);
        assert(all[i as int].last_visit_time.valid());
        if !matches_any(items[i].url.as_str(), ban) {
            let ghost before = out@;
            let at: String = items[i].last_visit_time.to_text();
            let ghost one = (items@[i as int].url@, at@);
            out.push((items[i].url.clone(), at));
            assert(pairs(out@) =~= pairs(before).push(one));
        }
        i = i + 1;
    }
    assert(all.take(all.len() as int) =~= all);
    out
}

/// The URLs of links.
fn collect_urls(list: &Vec<(String, String)>) -> (r: Vec<String>)
    ensures
        texts(r@) == link_urls(pairs(list@)),
{
    let mut out: Vec<String> = Vec::new();
    let mut i: usize = 0;
    while i < list.len()
        invariant
            i <= list@.len(),
            out@.len() == i,
            forall|k: int| 0 <= k < i ==> (#[trigger] out@[k])@ == list@[k].0@,
        decreases list@.len() - i,
    {
        out.push(list[i].0.clone());
        i = i + 1;
    }
    assert(texts(out@) =~= link_urls(pairs(list@)));
    out
}

/// Whether two values that may be missing are the same.
fn same_opt(a: &Option<String>, b: &Option<String>) -> (r: bool)
    ensures
        r == (opt(*a) == opt(*b)),
{
    match (a, b) {
        (Some(a), Some(b)) => same_text(a.as_str(), b.as_str()),
        (None, None) => true,
        _ => false,
    }
}

/// Decides what to do about an event: the stage that the run is then in, what is logged, and the
/// next action.
pub fn sync_step(plan: &Plan, stage: Stage, event: Event) -> (r: (Stage, Vec<LogLine>, Action))
    requires
        expected(stage@, event@),
    ensures
        step_of(r.0, r.1@, r.2) == next_step(plan@, stage@, event@),
{
    match (stage, event) {
        (Stage::Begin, _) => (
            Stage::Timing,
            one_line(make_note("Sync started")),
            Action::ReadTimes,
        ),
        (Stage::Timing, Event::Times { current, stored }) => {
            if !same_opt(&current, &stored) {
                (
                    Stage::Reading(current),
                    one_line(make_note("Browser history changed — reading new visits")),
                    Action::ReadHistory { limit: BROWSER_HISTORY_FETCH_LIMIT },
                )
            } else {
                (
                    Stage::Listing(None),
                    one_line(
                        make_note("Browser history unchanged — checking for pending pages"),
                    ),
                    Action::ListPending { limit: plan.fetch_batch },
                )
            }
        },
        (Stage::Reading(mtime), Event::History { items, reading_list }) => {
            let visits: Vec<(String, String)> = collect_visits(&items, &plan.ban);
            let urls: Vec<String> = collect_urls(&reading_list);
            (Stage::Registering(mtime), no_lines(), Action::Register { visits, urls })
        },
        (Stage::Registering(mtime), _) => (
            Stage::Listing(mtime),
            no_lines(),
            Action::ListPending { limit: plan.fetch_batch },
        ),
        (Stage::Listing(mtime), Event::Urls(urls)) => match mtime {
            Some(mtime) => (Stage::Remembering(urls), no_lines(), Action::Remember { mtime }),
            None => go_to_first_page(plan, urls),
        },
        (Stage::Remembering(urls), _) => go_to_first_page(plan, urls),
        (Stage::Fetching(urls, i), Event::Page(result)) => go_on_from_outcome(
            plan,
            urls,
            i,
            result,
        ),
        (Stage::Marking(urls, i, log), _) => {
            assert(texts(urls@).len() == urls@.len());
            assert(i < urls.len());
            go_to_page(plan, urls, i + 1, log)
        },
        (Stage::Storing(urls, i), _) => {
            let host: String = host_from_url(url_at(&urls, i).as_str()).to_owned();
            (Stage::Checking(urls, i), no_lines(), Action::CheckIcon { host })
        },
        (Stage::Checking(urls, i), Event::HasIcon(has)) => {
            if has {
                go_on_indexed(plan, urls, i)
            } else {
                let url: String = url_at(&urls, i);
                (Stage::Loading(urls, i), no_lines(), Action::FetchIcon { url })
            }
        },
        (Stage::Loading(urls, i), Event::Icon(icon)) => match icon {
            Some((host, mime, data)) => (
                Stage::Keeping(urls, i),
                no_lines(),
                Action::StoreIcon { host, mime, data },
            ),
            None => go_on_indexed(plan, urls, i),
        },
        (Stage::Keeping(urls, i), _) => go_on_indexed(plan, urls, i),
        (Stage::Gathering, Event::Pages(pages)) => {
            assert(triples(pages@).len() == pages@.len());
            let log: Vec<LogLine> = if pages.len() > 0 {
                one_line(make_count("Embedding ", pages.len(), " page(s)"))
            } else {
                no_lines()
            };
            go_to_embedding(pages, 0, 0, log)
        },
        (Stage::Embedding(pages, i, done), Event::Vector(bytes)) => {
            assert(triples(pages@).len() == pages@.len());
            let url: String = pages[i].0.clone();
            (Stage::Saving(pages, i, done), no_lines(), Action::StoreEmbedding { url, bytes })
        },
        (Stage::Embedding(pages, i, done), Event::EmbedFailed(e)) => {
            assert(triples(pages@).len() == pages@.len());
            assert(i < pages.len());
            let line: LogLine = make_complaint("Embed error: ", pages[i].0.as_str(), e);
            go_to_embedding(pages, i + 1, done, one_line(line))
        },
        (Stage::Embedding(pages, i, done), Event::EmbedPanicked(e)) => {
            assert(triples(pages@).len() == pages@.len());
            assert(i < pages.len());
            let line: LogLine = make_complaint("Embed panic: ", pages[i].0.as_str(), e);
            go_to_embedding(pages, i + 1, done, one_line(line))
        },
        (Stage::Saving(pages, i, done), _) => {
            assert(triples(pages@).len() == pages@.len());
            assert(i < pages.len());
            go_to_embedding(pages, i + 1, done + 1, no_lines())
        },
        _ => (Stage::Finished, no_lines(), Action::Finish),
    }
}

/// The list of pages to fetch, and the entry of it, that a stage works on.
pub open spec fn fetches(at: At) -> Option<(Seq<Seq<char>>, int)> {
    match at {
        At::Fetching(urls, i) => Some((urls, i)),
        At::Marking(urls, i, _) => Some((urls, i)),
        At::Storing(urls, i) => Some((urls, i)),
        At::Checking(urls, i) => Some((urls, i)),
        At::Loading(urls, i) => Some((urls, i)),
        At::Keeping(urls, i) => Some((urls, i)),
        _ => None,
    }
}

/// The list of pages to embed, and the entry of it, that a stage works on.
pub open spec fn embeds_at(at: At) -> Option<(Seq<(Seq<char>, Seq<char>, Seq<char>)>, int)> {
    match at {
        At::Embedding(pages, i, _) => Some((pages, i)),
        At::Saving(pages, i, _) => Some((pages, i)),
        _ => None,
    }
}

/// A run works on every page of its list: it begins with the first, goes from one to the next,
/// and leaves the list only behind the last. Each page is fetched, or marked where it is banned.
pub proof fn law_every_listed_page_is_worked_on(rules: Rules, at: At, event: Happened)
    requires
        expected(at, event),
    ensures
        ({
            let next = next_step(rules, at, event);
            &&& fetches(at) matches Some((urls, i)) ==> match fetches(next.at) {
                Some((same, j)) => same == urls && (j == i || j == i + 1),
                None => i + 1 == urls.len() && (next.at is Gathering || next.at is Finished),
            }
            &&& fetches(next.at) matches Some((urls, j)) ==> fetches(at) is None ==> j == 0 && (at
                == At::Remembering(urls) || (at == At::Listing(None) && event == Happened::Urls(
                urls,
            )))
            &&& at matches At::Remembering(urls) ==> urls.len() > 0 ==> fetches(next.at) == Some(
                (urls, 0int),
            )
            &&& at == At::Listing(None) && event->Urls_0.len() > 0 ==> fetches(next.at) == Some(
                (event->Urls_0, 0int),
            )
            &&& fetches(next.at) matches Some((urls, j)) ==> fetches(at) != fetches(next.at) ==> {
                if any_matches(urls[j], rules.ban) {
                    next.action == (Do::Mark { url: urls[j], status: FetchStatus::Skip })
                } else {
                    next.action == (Do::Fetch { url: urls[j] })
                }
            }
        }),
{
}

/// Everything that is done about a page of the list is done about that page: it is stored with
/// the title and the text that were fetched, marked as what it turned out to be, or its failure
/// is counted; the icon that is asked for, fetched and kept is that of its host.
pub proof fn law_what_is_done_about_a_page(rules: Rules, at: At, event: Happened)
    requires
        expected(at, event),
    ensures
        ({
            let next = next_step(rules, at, event);
            &&& at matches At::Fetching(urls, i) ==> match event->Page_0 {
                Outcome::Page(page) => next.at == At::Storing(urls, i) && next.action == (
                Do::Store { url: urls[i], title: page.title, body: page.body }),
                Outcome::AuthWall => next.at is Marking && next.action == (Do::Mark {
                    url: urls[i],
                    status: FetchStatus::AuthWall,
                }),
                Outcome::Skip => next.at is Marking && next.action == (Do::Mark {
                    url: urls[i],
                    status: FetchStatus::Skip,
                }),
                Outcome::Error(e) => next.at is Marking && next.action == (Do::Fail {
                    url: urls[i],
                    max_attempts: rules.max_retries,
                }),
            }
            &&& at matches At::Storing(urls, i) ==> next.at == At::Checking(urls, i) && next.action
                == (Do::CheckIcon { host: host_of(urls[i]) })
            &&& at matches At::Checking(urls, i) ==> !event->HasIcon_0 ==> next.at == At::Loading(
                urls,
                i,
            ) && next.action == (Do::FetchIcon { url: urls[i] })
            &&& at matches At::Loading(urls, i) ==> event->Icon_0 matches Some((host, mime, data))
                ==> next.at == At::Keeping(urls, i) && next.action == (Do::StoreIcon {
                host,
                mime,
                data,
            })
            &&& at matches At::Fetching(urls, i) ==> event->Page_0 matches Outcome::Error(e)
                ==> next.at->Marking_2 == seq![complaint("Fetch error: "@ + urls[i], e)]
            &&& fetches(at) matches Some((urls, i)) ==> (at is Keeping || (at is Checking
                && event->HasIcon_0) || (at is Loading && event->Icon_0 is None)) ==> next.log.len()
                > 0 && next.log[0] == note("Indexed: "@ + urls[i])
        }),
{
}

/// A run goes on from a page that is done to the next, whatever came of it.
pub proof fn law_a_page_that_is_done_makes_way(rules: Rules, at: At, event: Happened)
    requires
        expected(at, event),
        at is Marking || at is Keeping || (at is Checking && event->HasIcon_0) || (at is Loading
            && event->Icon_0 is None),
    ensures
        ({
            let (urls, i) = fetches(at)->0;
            let next = next_step(rules, at, event).at;
            if i + 1 < urls.len() {
                fetches(next) == Some((urls, i + 1))
            } else if rules.embeds {
                next is Gathering
            } else {
                next is Finished
            }
        }),
{
}

/// The history is read where the browser's database has changed since the time remembered, and
/// only there. Its time is remembered once the visits are entered and the pages to fetch are
/// known.
pub proof fn law_a_changed_history_is_read(rules: Rules, at: At, event: Happened)
    requires
        expected(at, event),
    ensures
        ({
            let next = next_step(rules, at, event);
            &&& at is Begin ==> next.at is Timing && next.action is ReadTimes
            &&& at is Timing ==> {
                if event->current == event->stored {
                    next.at == At::Listing(None) && next.action == (Do::ListPending {
                        limit: rules.fetch_batch,
                    })
                } else {
                    next.at == At::Reading(event->current) && next.action == (Do::ReadHistory {
                        limit: 1000,
                    })
                }
            }
            &&& at matches At::Reading(mtime) ==> next.at == At::Registering(mtime)
                && next.action is Register
            &&& at matches At::Registering(mtime) ==> next.at == At::Listing(mtime) && next.action
                == (Do::ListPending { limit: rules.fetch_batch })
            &&& at matches At::Listing(Some(mtime)) ==> next.at == At::Remembering(event->Urls_0)
                && next.action == (Do::Remember { mtime })
            &&& next.action matches Do::Remember { mtime } ==> at == At::Listing(Some(mtime))
        }),
{
}

/// Every page of the history that is not banned is entered with the time of its last visit, in
/// the order of the history, and every link of the reading list is heard of.
pub proof fn law_every_visit_is_entered(
    rules: Rules,
    mtime: Option<Seq<char>>,
    items: Seq<Visited>,
    reading_list: Seq<(Seq<char>, Seq<char>)>,
)
    requires
        times_valid(items),
    ensures
        ({
            let done = next_step(
                rules,
                At::Reading(mtime),
                Happened::History { items, reading_list },
            ).action;
            &&& done is Register
            &&& picked(
                items.len(),
                done->visits,
                |i: int| !any_matches(items[i].url, rules.ban),
                |i: int|
                    (
                        items[i].url,
                        written_time(
                            items[i].last_visit_time.secs as int,
                            items[i].last_visit_time.nanos as int,
                            "%Y-%m-%d %H:%M:%S"@,
                        ),
                    ),
            )
            &&& done->Register_urls.len() == reading_list.len()
            &&& forall|i: int|
                0 <= i < reading_list.len() ==> #[trigger] done->Register_urls[i]
                    == reading_list[i].0
        }),
{
    lemma_visits_picked(items, rules.ban);
}

proof fn lemma_visits_picked(items: Seq<Visited>, ban: Seq<Seq<char>>)
    ensures
        picked(
            items.len(),
            visits_of(items, ban),
            |i: int| !any_matches(items[i].url, ban),
            |i: int|
                (
                    items[i].url,
                    written_time(
                        items[i].last_visit_time.secs as int,
                        items[i].last_visit_time.nanos as int,
                        "%Y-%m-%d %H:%M:%S"@,
                    ),
                ),
        ),
    decreases items.len(),
{
    let chosen = |i: int| !any_matches(items[i].url, ban);
    let gives = |i: int|
        (
            items[i].url,
            written_time(
                items[i].last_visit_time.secs as int,
                items[i].last_visit_time.nanos as int,
                "%Y-%m-%d %H:%M:%S"@,
            ),
        );
    if items.len() == 0 {
        lemma_picked_none(chosen, gives);
    } else {
        let init = items.drop_last();
        lemma_visits_picked(init, ban);
        lemma_picked_one_more(
            init.len(),
            visits_of(init, ban),
            |i: int| !any_matches(init[i].url, ban),
            |i: int|
                (
                    init[i].url,
                    written_time(
                        init[i].last_visit_time.secs as int,
                        init[i].last_visit_time.nanos as int,
                        "%Y-%m-%d %H:%M:%S"@,
                    ),
                ),
            visits_of(items, ban),
            chosen,
            gives,
        );
    }
}

/// Every page of the list of pages to embed is embedded, by its title and its text: a run begins
/// with the first, goes from one to the next whatever comes of it, and ends behind the last. What
/// was computed for a page is entered under its URL.
pub proof fn law_every_listed_page_is_embedded(rules: Rules, at: At, event: Happened)
    requires
        expected(at, event),
    ensures
        ({
            let next = next_step(rules, at, event);
            &&& at is Gathering ==> {
                if event->Pages_0.len() == 0 {
                    next.at is Finished
                } else {
                    embeds_at(next.at) == Some((event->Pages_0, 0int)) && next.at is Embedding
                }
            }
            &&& at matches At::Embedding(pages, i, done) ==> {
                if event is Vector {
                    next.at == At::Saving(pages, i, done) && next.action == (Do::StoreEmbedding {
                        url: pages[i].0,
                        bytes: event->Vector_0,
                    })
                } else if i + 1 < pages.len() {
                    next.at == At::Embedding(pages, i + 1, done)
                } else {
                    next.at is Finished
                }
            }
            &&& at matches At::Saving(pages, i, done) ==> {
                if i + 1 < pages.len() {
                    next.at == At::Embedding(pages, i + 1, done + 1)
                } else {
                    next.at is Finished
                }
            }
            &&& next.at matches At::Embedding(pages, j, _) ==> next.action == (Do::Embed {
                text: pages[j].1 + " "@ + pages[j].2,
            })
            &&& next.at is Gathering ==> next.action == (Do::ListUnembedded {
                limit: rules.embed_batch,
            })
            &&& phase(at) >= 3 && next.at is Finished ==> !rules.embeds
        }),
{
}

/// What is logged when a page is marked is what was noted of it: that it is behind a login, or why
/// it could not be had.
pub proof fn law_what_was_noted_is_logged(rules: Rules, urls: Seq<Seq<char>>, i: int, log: Seq<Line>)
    requires
        0 <= i < urls.len(),
    ensures
        next_step(rules, At::Fetching(urls, i), Happened::Page(Outcome::AuthWall)).at
            == At::Marking(urls, i, seq![note("Skipped (auth wall): "@ + urls[i])]),
        log.is_prefix_of(next_step(rules, At::Marking(urls, i, log), Happened::Done).log),
{
    let told = next_step(rules, At::Marking(urls, i, log), Happened::Done).log;
    assert(told.take(log.len() as int) =~= log);
    assert(log =~= told.take(log.len() as int));
}

} // verus!
