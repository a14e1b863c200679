//! The history of Safari.

use vstd::prelude::*;
use vstd::string::*;

use crate::browser::{largest_first, largest_first_key, visited, HistoryItem, Visited};
use crate::config::{host_from_url, host_of};
use crate::order::{
    arranged, first_n, is_part, keep, kept, lemma_all_sorted, lemma_arranged_by,
    lemma_kept_and_sorted, lemma_seq_before_total, ranks, sort_by_keys, sorted, take_first, Key,
    Rank,
};
use crate::score::Number;
use crate::time::{from_unix, in_calendar, Timestamp};
use crate::text::opt;

verus! {

/// The history of Safari.
pub struct SafariBrowser;

/// Seconds from 1970-01-01 to 2001-01-01, from which Safari counts.
pub const CORE_DATA_OFFSET: i64 = 978_307_200;

/// A page of the history with one visit, or with its last one.
#[derive(Debug)]
pub struct SafariVisit {
    pub id: i64,
    pub url: String,
    pub title: Option<String>,
    /// The time of the visit.
    pub visit_time: Option<Number>,
    /// The whole seconds of the time of the visit, and zero where it is missing.
    pub whole_secs: i64,
    pub visit_count: i64,
}

/// A point in time in seconds since 2001; one that the calendar does not hold is the start of
/// 1970.
pub open spec fn core_data_time(secs: i64) -> Timestamp {
    if in_calendar(secs + CORE_DATA_OFFSET, 0) {
        Timestamp { secs: (secs + CORE_DATA_OFFSET) as i64, nanos: 0 }
    } else {
        Timestamp::start()
    }
}

/// A point in time in seconds since 2001.
pub fn safari_time(secs: i64) -> (r: Timestamp)
    requires
        secs + CORE_DATA_OFFSET <= i64::MAX,
    ensures
        r == core_data_time(secs),
        r.valid(),
{
    from_unix(secs + CORE_DATA_OFFSET, 0)
}

/// The page that a row stands for.
pub open spec fn visit_item(row: SafariVisit) -> Visited {
    Visited {
        id: row.id,
        url: row.url@,
        title: opt(row.title),
        host: host_of(row.url@),
        last_visit_time: core_data_time(row.whole_secs),
        visit_count: row.visit_count,
    }
}

/// The times of all rows are small enough to be counted from 1970.
pub open spec fn countable(rows: Seq<SafariVisit>) -> bool {
    forall|i: int|
        0 <= i < rows.len() ==> (#[trigger] rows[i]).whole_secs + CORE_DATA_OFFSET <= i64::MAX
}

/// The sorting key of a time that may be missing: the latest first, and missing ones last.
pub open spec fn latest_first(t: Option<Number>) -> Rank {
    match t {
        Some(n) => Rank { major: 0, minor: -n.key(), text: Seq::empty() },
        None => Rank { major: 1, minor: 0, text: Seq::empty() },
    }
}

/// The sorting keys of rows: the last visit first.
pub open spec fn newest_keys(rows: Seq<SafariVisit>) -> Seq<Rank> {
    Seq::new(rows.len(), |i: int| latest_first(rows[i].visit_time))
}

/// The sorting keys of rows: the most visited first.
pub open spec fn busiest_keys(rows: Seq<SafariVisit>) -> Seq<Rank> {
    Seq::new(rows.len(), |i: int| largest_first(Some(rows[i].visit_count)))
}

/// Rows that were visited.
pub open spec fn visited_flags(rows: Seq<SafariVisit>) -> Seq<bool> {
    Seq::new(rows.len(), |i: int| rows[i].visit_count > 0)
}

/// The rows of the recent history.
pub open spec fn recent_rows(rows: Seq<SafariVisit>, limit: u32) -> Seq<SafariVisit> {
    first_n(arranged(rows, newest_keys(rows)), limit as nat)
}

/// The rows of the most visited pages.
pub open spec fn top_rows(rows: Seq<SafariVisit>, limit: u32) -> Seq<SafariVisit> {
    let list = kept(rows, visited_flags(rows));
    first_n(arranged(list, busiest_keys(list)), limit as nat)
}

/// The pages that rows stand for.
pub open spec fn visit_items(rows: Seq<SafariVisit>) -> Seq<Visited> {
    Seq::new(rows.len(), |i: int| visit_item(rows[i]))
}

/// The page that a row stands for.
fn map_row(row: &SafariVisit) -> (r: HistoryItem)
    requires
        row.whole_secs + CORE_DATA_OFFSET <= i64::MAX,
    ensures
        r@ == visit_item(*row),
{
    let title: Option<String> = match &row.title {
        Some(t) => Some(t.clone()),
        None => None,
    };
    HistoryItem {
        id: row.id,
        url: row.url.clone(),
        title,
        host: host_from_url(row.url.as_str()).to_owned(),
        last_visit_time: safari_time(row.whole_secs),
        visit_count: row.visit_count,
    }
}

/// The pages that rows stand for.
fn map_rows(rows: &Vec<SafariVisit>) -> (r: Vec<HistoryItem>)
    requires
        countable(rows@),
    ensures
        visited(r@) == visit_items(rows@),
{
    let mut out: Vec<HistoryItem> = Vec::new();
    let mut i: usize = 0;
    while i < rows.len()
        invariant
            i <= rows.len(),
            countable(rows@),
            out@.len() == i,
            forall|k: int| 0 <= k < i ==> (#[trigger] out@[k])@ == visit_item(rows@[k]),
        decreases rows.len() - i,
    {
        assert(rows@[i as int].whole_secs + CORE_DATA_OFFSET <= i64::MAX);
        let item: HistoryItem = map_row(&rows[i]);
        out.push(item);
        i = i + 1;
    }
    assert(visited(out@) =~= visit_items(rows@));
    out
}

/// What holds of all rows holds of those that are taken from them in order.
proof fn lemma_countable(rows: Seq<SafariVisit>, keys: Seq<Rank>, limit: nat)
    requires
        countable(rows),
        keys.len() == rows.len(),
    ensures
        countable(first_n(arranged(rows, keys), limit)),
{
    crate::order::lemma_stable_order(keys);
    let o = crate::order::stable_order(keys);
    let taken = first_n(arranged(rows, keys), limit);
    assert forall|i: int| 0 <= i < taken.len() implies (#[trigger] taken[i]).whole_secs
        + CORE_DATA_OFFSET <= i64::MAX by {
        assert(0 <= o[i] < rows.len());
        assert(taken[i] == rows[o[i]]);
    }
}

impl SafariBrowser {
    /// The last visits, newest first.
    pub fn recent(&self, rows: Vec<SafariVisit>, limit: u32) -> (r: Vec<HistoryItem>)
        requires
            countable(rows@),
        ensures
            visited(r@) == visit_items(recent_rows(rows@, limit)),
    {
        let mut keys: Vec<Key> = Vec::new();
        let mut j: usize = 0;
        while j < rows.len()
            invariant
                j <= rows.len(),
                keys@.len() == j,
                forall|k: int| 0 <= k < j ==> (#[trigger] keys@[k])@ == newest_keys(rows@)[k],
            decreases rows.len() - j,
        {
            let key: Key = match rows[j].visit_time {
                Some(n) => Key::numbers(0, -(n.order_key() as i128)),
                None => Key::numbers(1, 0),
            };
            keys.push(key);
            j = j + 1;
        }
        assert(ranks(keys@) =~= newest_keys(rows@));
        proof {
            lemma_countable(rows@, newest_keys(rows@), limit as nat);
        }
        let chosen: Vec<SafariVisit> = take_first(sort_by_keys(rows, &keys), limit as usize);
        map_rows(&chosen)
    }

    /// The pages visited most often, the most visited first.
    pub fn top_sites(&self, rows: Vec<SafariVisit>, limit: u32) -> (r: Vec<HistoryItem>)
        requires
            countable(rows@),
        ensures
            visited(r@) == visit_items(top_rows(rows@, limit)),
    {
        let mut flags: Vec<bool> = Vec::new();
        let mut i: usize = 0;
        while i < rows.len()
            invariant
                i <= rows.len(),
                flags@.len() == i,
                forall|k: int| 0 <= k < i ==> #[trigger] flags@[k] == visited_flags(rows@)[k],
            decreases rows.len() - i,
        {
            flags.push(rows[i].visit_count > 0);
            i = i + 1;
        }
        assert(flags@ =~= visited_flags(rows@));
        proof {
            crate::order::lemma_kept(
                rows@,
                flags@,
                |row: SafariVisit| row.whole_secs + CORE_DATA_OFFSET <= i64::MAX,
            );
        }
        let list: Vec<SafariVisit> = keep(rows, &flags);
        let mut keys: Vec<Key> = Vec::new();
        let mut j: usize = 0;
        while j < list.len()
            invariant
                j <= list.len(),
                keys@.len() == j,
                forall|k: int| 0 <= k < j ==> (#[trigger] keys@[k])@ == busiest_keys(list@)[k],
            decreases list.len() - j,
        {
            keys.push(largest_first_key(Some(list[j].visit_count)));
            j = j + 1;
        }
        assert(ranks(keys@) =~= busiest_keys(list@));
        proof {
            lemma_countable(list@, busiest_keys(list@), limit as nat);
        }
        let chosen: Vec<SafariVisit> = take_first(sort_by_keys(list, &keys), limit as usize);
        map_rows(&chosen)
    }
}

/// The recent history has the newest visit first, visits without a time last, and no more than
/// asked for.
pub proof fn law_recent_visits_newest_first(rows: Seq<SafariVisit>, limit: u32)
    ensures
        recent_rows(rows, limit).len() <= limit,
        forall|i: int, j: int|
            0 <= i < j < recent_rows(rows, limit).len() ==> ((#[trigger] recent_rows(
                rows,
                limit,
            )[j]).visit_time matches Some(later) ==> ((#[trigger] recent_rows(
                rows,
                limit,
            )[i]).visit_time matches Some(first) && first.key() >= later.key())),
{
    lemma_arranged_by(rows, newest_keys(rows), |v: SafariVisit| latest_first(v.visit_time));
}

/// The pages visited most often come the most visited first, and no more than asked for.
pub proof fn law_top_visits_busiest_first(rows: Seq<SafariVisit>, limit: u32)
    ensures
        top_rows(rows, limit).len() <= limit,
        forall|i: int, j: int|
            0 <= i < j < top_rows(rows, limit).len() ==> (#[trigger] top_rows(
                rows,
                limit,
            )[i]).visit_count >= (#[trigger] top_rows(rows, limit)[j]).visit_count,
{
    let list = kept(rows, visited_flags(rows));
    lemma_arranged_by(
        list,
        busiest_keys(list),
        |v: SafariVisit| largest_first(Some(v.visit_count)),
    );
}

/// A later time comes first, and no time comes last.
pub open spec fn later(a: Option<Number>, b: Option<Number>) -> bool {
    match (a, b) {
        (Some(m), Some(n)) => m.key() > n.key(),
        (Some(_), None) => true,
        _ => false,
    }
}

/// The recent visits are all, the newest first; the top ones are all pages that were visited,
/// the busiest first; both as far as the limit goes.
pub proof fn law_no_visit_is_missed(rows: Seq<SafariVisit>, limit: u32)
    ensures
        exists|whole: Seq<SafariVisit>|
            #[trigger] is_part(recent_rows(rows, limit), whole, 0, limit as nat) && sorted(
                rows.len(),
                whole,
                |i: int| true,
                |i: int| rows[i],
                |i: int, j: int| later(rows[i].visit_time, rows[j].visit_time),
            ),
        exists|whole: Seq<SafariVisit>|
            #[trigger] is_part(top_rows(rows, limit), whole, 0, limit as nat) && sorted(
                rows.len(),
                whole,
                |i: int| rows[i].visit_count > 0,
                |i: int| rows[i],
                |i: int, j: int| rows[i].visit_count > rows[j].visit_count,
            ),
{
    let same = |v: SafariVisit| v;
    lemma_seq_before_total(Seq::empty(), Seq::empty());
    let newest = arranged(rows, newest_keys(rows));
    lemma_all_sorted(
        rows,
        newest_keys(rows),
        |v: SafariVisit| latest_first(v.visit_time),
        |i: int, j: int| later(rows[i].visit_time, rows[j].visit_time),
    );
    assert(is_part(recent_rows(rows, limit), newest, 0, limit as nat));
    let seen = kept(rows, visited_flags(rows));
    let busiest = arranged(seen, busiest_keys(seen));
    assert(busiest.map_values(same) =~= busiest);
    lemma_kept_and_sorted(
        rows,
        visited_flags(rows),
        busiest_keys(seen),
        |v: SafariVisit| largest_first(Some(v.visit_count)),
        same,
        busiest,
        |i: int| rows[i].visit_count > 0,
        |i: int| rows[i],
        |i: int, j: int| rows[i].visit_count > rows[j].visit_count,
    );
    assert(is_part(top_rows(rows, limit), busiest, 0, limit as nat));
}

/// A visit has the URL, the title and the number of visits of its row, the host of its URL, and
/// its time, which the row counts in seconds from 2001 on.
pub proof fn law_a_visit_is_taken_as_it_is(row: SafariVisit)
    ensures
        ({
            let item = visit_item(row);
            &&& item.id == row.id
            &&& item.url == row.url@
            &&& item.title == opt(row.title)
            &&& item.host == host_of(row.url@)
            &&& item.visit_count == row.visit_count
            &&& 0 <= row.whole_secs < 8_000_000_000_000 ==> item.last_visit_time == (Timestamp {
                secs: (row.whole_secs + 978_307_200) as i64,
                nanos: 0,
            })
        }),
{
}

} // verus!
