//! A log of the running session: the newest entries of each kind, up to a limit.

use std::collections::VecDeque;

use vstd::prelude::*;
use vstd::string::*;

use crate::order::{arranged, lemma_arranged_by, sort_by_keys, Key, Rank};
use crate::text::same_text;
use crate::time::Timestamp;

verus! {

pub const MAX_SYNC: usize = 500;

pub const MAX_LLM: usize = 100;

pub const MAX_SEARCH: usize = 500;

pub const MAX_ERROR: usize = 200;

/// What an entry is about.
#[derive(Debug, Clone, Copy, PartialEq, Eq, Structural)]
pub enum LogKind {
    Sync,
    Llm,
    Search,
    Error,
}

impl LogKind {
    /// How many entries of this kind are kept.
    pub open spec fn limit(self) -> nat {
        match self {
            LogKind::Sync => MAX_SYNC as nat,
            LogKind::Llm => MAX_LLM as nat,
            LogKind::Search => MAX_SEARCH as nat,
            LogKind::Error => MAX_ERROR as nat,
        }
    }

    /// The name under which entries of this kind are asked for.
    pub open spec fn name(self) -> Seq<char> {
        match self {
            LogKind::Sync => "sync"@,
            LogKind::Llm => "llm"@,
            LogKind::Search => "search"@,
            LogKind::Error => "error"@,
        }
    }
}

/// An entry of the log.
#[derive(Debug)]
pub struct LogEntry {
    pub ts: Timestamp,
    pub kind: LogKind,
    pub message: String,
    pub detail: Option<String>,
}

impl Clone for LogEntry {
    fn clone(&self) -> (r: Self)
        ensures
            r == *self,
    {
        let detail: Option<String> = match &self.detail {
            Some(d) => Some(d.clone()),
            None => None,
        };
        LogEntry { ts: self.ts, kind: self.kind, message: self.message.clone(), detail }
    }
}

/// The entries of each kind, newest first.
pub struct SessionLog {
    sync: VecDeque<LogEntry>,
    llm: VecDeque<LogEntry>,
    search: VecDeque<LogEntry>,
    error: VecDeque<LogEntry>,
}

/// The sorting keys of entries: newest first.
pub open spec fn newest_first(entries: Seq<LogEntry>) -> Seq<Rank> {
    Seq::new(
        entries.len(),
        |i: int|
            Rank {
                major: -(entries[i].ts.secs as int),
                minor: -(entries[i].ts.nanos as int),
                text: Seq::empty(),
            },
    )
}

/// A list with a new entry in front; where it grows past the limit, its last entry goes.
pub open spec fn pushed(old: Seq<LogEntry>, entry: LogEntry, limit: nat) -> Seq<LogEntry> {
    let longer = seq![entry] + old;
    if longer.len() > limit {
        longer.drop_last()
    } else {
        longer
    }
}

/// Copies a list of entries.
fn copied(d: &VecDeque<LogEntry>) -> (r: Vec<LogEntry>)
    ensures
        r@ == d@,
{
    let mut out: Vec<LogEntry> = Vec::new();
    append_copies(d, &mut out);
    assert(out@ =~= d@);
    out
}

/// Appends copies of a list of entries.
fn append_copies(d: &VecDeque<LogEntry>, out: &mut Vec<LogEntry>)
    ensures
        final(out)@ == old(out)@ + d@,
{
    let ghost before = out@;
    let mut i: usize = 0;
    assert(d@.take(0) =~= Seq::empty());
    assert(before + Seq::<LogEntry>::empty() =~= before);
    while i < d.len()
        invariant
            i <= d@.len(),
            out@ == before + d@.take(i as int),
        decreases d@.len() - i,
    {
        out.push(d[i].clone());
        assert(d@.take(i as int + 1) =~= d@.take(i as int).push(d@[i as int]));
        assert(out@ =~= before + d@.take(i as int + 1));
        i = i + 1;
    }
    assert(d@.take(d@.len() as int) =~= d@);
}

/// Puts an entry in front of a list, within a limit.
fn push_bounded(d: &mut VecDeque<LogEntry>, entry: LogEntry, max: usize)
    ensures
        final(d)@ == pushed(old(d)@, entry, max as nat),
{
    d.push_front(entry);
    assert(d@ =~= seq![entry] + old(d)@);
    if d.len() > max {
        d.pop_back();
    }
    assert(d@ =~= pushed(old(d)@, entry, max as nat));
}

impl SessionLog {
    /// The entries of a kind, newest first.
    pub closed spec fn entries(&self, kind: LogKind) -> Seq<LogEntry> {
        match kind {
            LogKind::Sync => self.sync@,
            LogKind::Llm => self.llm@,
            LogKind::Search => self.search@,
            LogKind::Error => self.error@,
        }
    }

    /// No kind holds more entries than its limit.
    pub open spec fn bounded(&self) -> bool {
        forall|kind: LogKind| (#[trigger] self.entries(kind)).len() <= kind.limit()
    }

    /// An empty log.
    pub fn new() -> (r: Self)
        ensures
            forall|kind: LogKind| #[trigger] r.entries(kind) == Seq::<LogEntry>::empty(),
            r.bounded(),
    {
        SessionLog {
            sync: VecDeque::new(),
            llm: VecDeque::new(),
            search: VecDeque::new(),
            error: VecDeque::new(),
        }
    }

    /// Logs an entry with the time given. Each kind keeps its newest entries only.
    pub fn push(&mut self, ts: Timestamp, kind: LogKind, message: String, detail: Option<String>)
        ensures
            final(self).entries(kind) == pushed(
                old(self).entries(kind),
                (LogEntry { ts, kind, message, detail }),
                kind.limit(),
            ),
            forall|other: LogKind|
                other != kind ==> #[trigger] final(self).entries(other) == old(self).entries(other),
            old(self).bounded() ==> final(self).bounded(),
    {
        let entry = LogEntry { ts, kind, message, detail };
        match kind {
            LogKind::Sync => push_bounded(&mut self.sync, entry, MAX_SYNC),
            LogKind::Llm => push_bounded(&mut self.llm, entry, MAX_LLM),
            LogKind::Search => push_bounded(&mut self.search, entry, MAX_SEARCH),
            LogKind::Error => push_bounded(&mut self.error, entry, MAX_ERROR),
        }
        proof {
            if old(self).bounded() {
                assert(old(self).entries(kind).len() <= kind.limit());
                assert forall|k: LogKind| (#[trigger] self.entries(k)).len() <= k.limit() by {
                    assert(old(self).entries(k).len() <= k.limit());
                }
            }
        }
    }

    /// All entries of the four kinds, one kind behind the other.
    pub open spec fn all(&self) -> Seq<LogEntry> {
        self.entries(LogKind::Sync) + self.entries(LogKind::Llm) + self.entries(LogKind::Search)
            + self.entries(LogKind::Error)
    }

    /// All entries, newest first. Entries of the same time stand in the order of their kinds,
    /// and within a kind the one logged last stands first.
    pub fn get_all(&self) -> (r: Vec<LogEntry>)
        ensures
            r@ == arranged(self.all(), newest_first(self.all())),
    {
        let mut all: Vec<LogEntry> = copied(&self.sync);
        append_copies(&self.llm, &mut all);
        append_copies(&self.search, &mut all);
        append_copies(&self.error, &mut all);
        let mut keys: Vec<Key> = Vec::new();
        let mut i: usize = 0;
        while i < all.len()
            invariant
                i <= all@.len(),
                keys@.len() == i,
                forall|k: int| 0 <= k < i ==> (#[trigger] keys@[k])@ == newest_first(all@)[k],
            decreases all@.len() - i,
        {
            keys.push(Key::numbers(-(all[i].ts.secs as i128), -(all[i].ts.nanos as i128)));
            i = i + 1;
        }
        assert(crate::order::ranks(keys@) =~= newest_first(all@));
        sort_by_keys(all, &keys)
    }

    /// The entries of the kind with this name, newest first; none for any other name.
    pub fn get_by_kind(&self, kind: &str) -> (r: Vec<LogEntry>)
        ensures
            forall|k: LogKind| #[trigger] k.name() == kind@ ==> r@ == self.entries(k),
            (forall|k: LogKind| #[trigger] k.name() != kind@) ==> r@.len() == 0,
    {
        proof {
            reveal_strlit("sync");
            reveal_strlit("llm");
            reveal_strlit("search");
            reveal_strlit("error");
            assert("sync"@[0] != "llm"@[0]);
            assert("search"@[1] != "sync"@[1]);
            assert("error"@[0] != "sync"@[0]);
            assert("error"@[0] != "llm"@[0]);
            assert("error"@[0] != "search"@[0]);
            assert("search"@[0] != "llm"@[0]);
        }
        if same_text(kind, "sync") {
            assert(LogKind::Sync.name() == kind@);
            copied(&self.sync)
        } else if same_text(kind, "llm") {
            assert(LogKind::Llm.name() == kind@);
            copied(&self.llm)
        } else if same_text(kind, "search") {
            assert(LogKind::Search.name() == kind@);
            copied(&self.search)
        } else if same_text(kind, "error") {
            assert(LogKind::Error.name() == kind@);
            copied(&self.error)
        } else {
            Vec::new()
        }
    }
}

impl Default for SessionLog {
    fn default() -> (r: Self)
        ensures
            forall|kind: LogKind| #[trigger] r.entries(kind) == Seq::<LogEntry>::empty(),
            r.bounded(),
    {
        SessionLog::new()
    }
}

/// A newly logged entry is the first of its kind, as long as the kind keeps any.
pub proof fn law_the_newest_entry_comes_first(old: Seq<LogEntry>, entry: LogEntry, kind: LogKind)
    ensures
        pushed(old, entry, kind.limit()).len() > 0,
        pushed(old, entry, kind.limit())[0] == entry,
        forall|i: int|
            0 < i < pushed(old, entry, kind.limit()).len() ==> #[trigger] pushed(
                old,
                entry,
                kind.limit(),
            )[i] == old[i - 1],
{
}

/// The log as a whole has its newest entries first.
pub proof fn law_the_log_comes_newest_first(entries: Seq<LogEntry>)
    ensures
        forall|i: int, j: int|
            0 <= i < j < entries.len() ==> {
                let a = (#[trigger] arranged(entries, newest_first(entries))[i]).ts;
                let b = (#[trigger] arranged(entries, newest_first(entries))[j]).ts;
                a.secs > b.secs || a.secs == b.secs && a.nanos >= b.nanos
            },
{
    lemma_arranged_by(
        entries,
        newest_first(entries),
        |e: LogEntry|
            Rank { major: -(e.ts.secs as int), minor: -(e.ts.nanos as int), text: Seq::empty() },
    );
}

/// The log keeps the last five hundred entries about runs and about searches, the last hundred
/// about the model, and the last two hundred about errors. Only the oldest entry of a kind makes
/// way for a new one, and only where there are as many as that.
pub proof fn law_the_log_keeps_the_last_entries(old: Seq<LogEntry>, entry: LogEntry, kind: LogKind)
    requires
        old.len() <= kind.limit(),
    ensures
        ({
            let n: nat = match kind {
                LogKind::Sync => 500,
                LogKind::Llm => 100,
                LogKind::Search => 500,
                LogKind::Error => 200,
            };
            let now = pushed(old, entry, kind.limit());
            &&& now.len() == if old.len() < n {
                old.len() + 1
            } else {
                n
            }
            &&& now[0] == entry
            &&& forall|i: int| 0 < i < now.len() ==> #[trigger] now[i] == old[i - 1]
        }),
{
}

/// The log as a whole has every entry of every kind.
pub proof fn law_the_log_as_a_whole_has_every_entry(log: SessionLog, e: LogEntry)
    ensures
        arranged(log.all(), newest_first(log.all())).contains(e) <==> log.entries(
            LogKind::Sync,
        ).contains(e) || log.entries(LogKind::Llm).contains(e) || log.entries(
            LogKind::Search,
        ).contains(e) || log.entries(LogKind::Error).contains(e),
{
    crate::order::law_sorting_keeps_every_entry(log.all(), newest_first(log.all()));
    let a = log.entries(LogKind::Sync);
    let b = log.entries(LogKind::Llm);
    let c = log.entries(LogKind::Search);
    let d = log.entries(LogKind::Error);
    let all = log.all();
    assert(arranged(all, newest_first(all)).contains(e) <==> all.contains(e));
    if a.contains(e) {
        let i = choose|i: int| 0 <= i < a.len() && a[i] == e;
        assert(all[i] == e);
    }
    if b.contains(e) {
        let i = choose|i: int| 0 <= i < b.len() && b[i] == e;
        assert(all[a.len() + i] == e);
    }
    if c.contains(e) {
        let i = choose|i: int| 0 <= i < c.len() && c[i] == e;
        assert(all[a.len() + b.len() + i] == e);
    }
    if d.contains(e) {
        let i = choose|i: int| 0 <= i < d.len() && d[i] == e;
        assert(all[a.len() + b.len() + c.len() + i] == e);
    }
    if all.contains(e) {
        let i = choose|i: int| 0 <= i < all.len() && all[i] == e;
        if i < a.len() {
            assert(a[i] == e);
        } else if i < a.len() + b.len() {
            assert(b[i - a.len()] == e);
        } else if i < a.len() + b.len() + c.len() {
            assert(c[i - a.len() - b.len()] == e);
        } else {
            assert(d[i - a.len() - b.len() - c.len()] == e);
        }
    }
}

} // verus!
