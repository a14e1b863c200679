//! The history of Firefox.

use vstd::prelude::*;
use vstd::string::*;

use crate::browser::{largest_first, largest_first_key, visited, HistoryItem, MissingValue, Visited};
use crate::config::{host_from_url, host_of};
use crate::order::{
    arranged, first_n, is_part, keep, kept, lemma_arranged_by, lemma_kept, lemma_kept_and_sorted,
    lemma_seq_before_total, lemma_stable_order, ranks, sort_by_keys, sorted, stable_order,
    take_first, Key, Rank,
};
use crate::time::{from_unix, in_calendar, toward_zero, Timestamp};
use crate::text::opt;

verus! {

/// The history of Firefox.
pub struct FirefoxBrowser;

/// A row of the table of places.
#[derive(Debug)]
pub struct Place {
    pub id: i64,
    pub url: Option<String>,
    pub title: Option<String>,
    /// Microseconds since 1970.
    pub last_visit_date: Option<i64>,
    pub visit_count: Option<i64>,
}

/// A point in time in microseconds since 1970. The fraction of a second counts forward from the
/// second, also before 1970; a time that the calendar does not hold is its start.
pub open spec fn micros_time(micros: i64) -> Timestamp {
    let secs = toward_zero(micros as int, 1_000_000);
    let size = if micros >= 0 {
        micros as int
    } else {
        -(micros as int)
    };
    let nanos = (size % 1_000_000) * 1000;
    if in_calendar(secs, nanos) {
        Timestamp { secs: secs as i64, nanos: nanos as u32 }
    } else {
        Timestamp::start()
    }
}

/// A point in time in microseconds since 1970.
pub fn firefox_timestamp(micros: i64) -> (r: Timestamp)
    ensures
        r == micros_time(micros),
        r.valid(),
{
    let size: i128 = if micros >= 0 {
        micros as i128
    } else {
        -(micros as i128)
    };
    let whole: i128 = size / 1_000_000;
    let nanos: u32 = ((size % 1_000_000) * 1000) as u32;
    let secs: i64 = if micros >= 0 {
        whole as i64
    } else {
        -(whole as i64)
    };
    from_unix(secs, nanos)
}

/// The page that a row stands for.
pub open spec fn place_item(row: Place) -> Visited {
    Visited {
        id: row.id,
        url: row.url.unwrap()@,
        title: opt(row.title),
        host: host_of(row.url.unwrap()@),
        last_visit_time: micros_time(
            match row.last_visit_date {
                Some(t) => t,
                None => 0,
            },
        ),
        visit_count: row.visit_count.unwrap(),
    }
}

/// A row was visited.
pub open spec fn was_visited(row: Place) -> bool {
    row.visit_count matches Some(n) && n > 0
}

/// Rows that were visited.
pub open spec fn visited_flags(rows: Seq<Place>) -> Seq<bool> {
    Seq::new(rows.len(), |i: int| was_visited(rows[i]))
}

/// Rows that were visited at a known time.
pub open spec fn dated_flags(rows: Seq<Place>) -> Seq<bool> {
    Seq::new(rows.len(), |i: int| was_visited(rows[i]) && rows[i].last_visit_date is Some)
}

/// The sorting keys of rows: the last visited first.
pub open spec fn newest_keys(rows: Seq<Place>) -> Seq<Rank> {
    Seq::new(rows.len(), |i: int| largest_first(rows[i].last_visit_date))
}

/// The sorting keys of rows: the most visited first.
pub open spec fn busiest_keys(rows: Seq<Place>) -> Seq<Rank> {
    Seq::new(rows.len(), |i: int| largest_first(rows[i].visit_count))
}

/// The rows of the recent history.
pub open spec fn recent_rows(rows: Seq<Place>, limit: u32) -> Seq<Place> {
    let list = kept(rows, dated_flags(rows));
    first_n(arranged(list, newest_keys(list)), limit as nat)
}

/// The rows of the most visited pages.
pub open spec fn top_rows(rows: Seq<Place>, limit: u32) -> Seq<Place> {
    let list = kept(rows, visited_flags(rows));
    first_n(arranged(list, busiest_keys(list)), limit as nat)
}

/// Every row has a URL and a number of visits.
pub open spec fn complete(rows: Seq<Place>) -> bool {
    forall|i: int|
        0 <= i < rows.len() ==> (#[trigger] rows[i]).url is Some && rows[i].visit_count is Some
}

/// The pages that rows stand for.
pub open spec fn place_items(rows: Seq<Place>) -> Seq<Visited> {
    Seq::new(rows.len(), |i: int| place_item(rows[i]))
}

/// The page that a row stands for, where it has a URL and a number of visits.
fn map_row(row: &Place) -> (r: Result<HistoryItem, MissingValue>)
    ensures
        match r {
            Ok(item) => row.url is Some && row.visit_count is Some && item@ == place_item(*row),
            Err(_) => row.url is None || row.visit_count is None,
        },
{
    let url: &String = match &row.url {
        Some(url) => url,
        None => {
            return Err(MissingValue);
        },
    };
    let visit_count: i64 = match row.visit_count {
        Some(n) => n,
        None => {
            return Err(MissingValue);
        },
    };
    let micros: i64 = match row.last_visit_date {
        Some(t) => t,
        None => 0,
    };
    let title: Option<String> = match &row.title {
        Some(t) => Some(t.clone()),
        None => None,
    };
    Ok(
        HistoryItem {
            id: row.id,
            url: url.clone(),
            title,
            host: host_from_url(url.as_str()).to_owned(),
            last_visit_time: firefox_timestamp(micros),
            visit_count,
        },
    )
}

/// The pages that rows stand for.
fn map_rows(rows: &Vec<Place>) -> (r: Result<Vec<HistoryItem>, MissingValue>)
    ensures
        match r {
            Ok(items) => complete(rows@) && visited(items@) == place_items(rows@),
            Err(_) => !complete(rows@),
        },
{
    let mut out: Vec<HistoryItem> = Vec::new();
    let mut i: usize = 0;
    while i < rows.len()
        invariant
            i <= rows.len(),
            out@.len() == i,
            forall|k: int|
                0 <= k < i ==> (#[trigger] rows@[k]).url is Some && rows@[k].visit_count is Some,
            forall|k: int| 0 <= k < i ==> (#[trigger] out@[k])@ == place_item(rows@[k]),
        decreases rows.len() - i,
    {
        match map_row(&rows[i]) {
            Ok(item) => {
                out.push(item);
            },
            Err(e) => {
                assert(!(rows@[i as int].url is Some && rows@[i as int].visit_count is Some));
                return Err(e);
            },
        }
        i = i + 1;
    }
    assert(visited(out@) =~= place_items(rows@));
    Ok(out)
}

impl FirefoxBrowser {
    /// The pages last visited, newest first: those visited at a known time. An error where one
    /// of them lacks its URL.
    pub fn recent(&self, rows: Vec<Place>, limit: u32) -> (r: Result<
        Vec<HistoryItem>,
        MissingValue,
    >)
        ensures
            match r {
                Ok(items) => complete(recent_rows(rows@, limit)) && visited(items@) == place_items(
                    recent_rows(rows@, limit),
                ),
                Err(_) => !complete(recent_rows(rows@, limit)),
            },
    {
        let mut flags: Vec<bool> = Vec::new();
        let mut i: usize = 0;
        while i < rows.len()
            invariant
                i <= rows.len(),
                flags@.len() == i,
                forall|k: int| 0 <= k < i ==> #[trigger] flags@[k] == dated_flags(rows@)[k],
            decreases rows.len() - i,
        {
            let seen: bool = match rows[i].visit_count {
                Some(n) => n > 0,
                None => false,
            };
            flags.push(seen && rows[i].last_visit_date.is_some());
            i = i + 1;
        }
        assert(flags@ =~= dated_flags(rows@));
        let list: Vec<Place> = keep(rows, &flags);
        let mut keys: Vec<Key> = Vec::new();
        let mut j: usize = 0;
        while j < list.len()
            invariant
                j <= list.len(),
                keys@.len() == j,
                forall|k: int| 0 <= k < j ==> (#[trigger] keys@[k])@ == newest_keys(list@)[k],
            decreases list.len() - j,
        {
            keys.push(largest_first_key(list[j].last_visit_date));
            j = j + 1;
        }
        assert(ranks(keys@) =~= newest_keys(list@));
        let chosen: Vec<Place> = take_first(sort_by_keys(list, &keys), limit as usize);
        map_rows(&chosen)
    }

    /// The pages visited most often, the most visited first. An error where one of them lacks
    /// its URL.
    pub fn top_sites(&self, rows: Vec<Place>, limit: u32) -> (r: Result<
        Vec<HistoryItem>,
        MissingValue,
    >)
        ensures
            match r {
                Ok(items) => complete(top_rows(rows@, limit)) && visited(items@) == place_items(
                    top_rows(rows@, limit),
                ),
                Err(_) => !complete(top_rows(rows@, limit)),
            },
    {
        let mut flags: Vec<bool> = Vec::new();
        let mut i: usize = 0;
        while i < rows.len()
            invariant
                i <= rows.len(),
                flags@.len() == i,
                forall|k: int| 0 <= k < i ==> #[trigger] flags@[k] == visited_flags(rows@)[k],
            decreases rows.len() - i,
        {
            let seen: bool = match rows[i].visit_count {
                Some(n) => n > 0,
                None => false,
            };
            flags.push(seen);
            i = i + 1;
        }
        assert(flags@ =~= visited_flags(rows@));
        let list: Vec<Place> = keep(rows, &flags);
        let mut keys: Vec<Key> = Vec::new();
        let mut j: usize = 0;
        while j < list.len()
            invariant
                j <= list.len(),
                keys@.len() == j,
                forall|k: int| 0 <= k < j ==> (#[trigger] keys@[k])@ == busiest_keys(list@)[k],
            decreases list.len() - j,
        {
            keys.push(largest_first_key(list[j].visit_count));
            j = j + 1;
        }
        assert(ranks(keys@) =~= busiest_keys(list@));
        let chosen: Vec<Place> = take_first(sort_by_keys(list, &keys), limit as usize);
        map_rows(&chosen)
    }
}

/// The recent history holds visited pages only, the newest visit first, and no more than asked
/// for.
pub proof fn law_recent_pages_newest_first(rows: Seq<Place>, limit: u32)
    ensures
        recent_rows(rows, limit).len() <= limit,
        forall|i: int|
            0 <= i < recent_rows(rows, limit).len() ==> (#[trigger] recent_rows(
                rows,
                limit,
            )[i]).last_visit_date is Some,
        forall|i: int, j: int|
            0 <= i < j < recent_rows(rows, limit).len() ==> (#[trigger] recent_rows(
                rows,
                limit,
            )[i]).last_visit_date.unwrap() >= (#[trigger] recent_rows(
                rows,
                limit,
            )[j]).last_visit_date.unwrap(),
{
    let flags = dated_flags(rows);
    let list = kept(rows, flags);
    lemma_kept(rows, flags, |p: Place| p.last_visit_date is Some);
    lemma_arranged_by(list, newest_keys(list), |p: Place| largest_first(p.last_visit_date));
    lemma_stable_order(newest_keys(list));
    let sorted = arranged(list, newest_keys(list));
    assert forall|i: int| 0 <= i < sorted.len() implies (
    #[trigger] sorted[i]).last_visit_date is Some by {
        assert(0 <= stable_order(newest_keys(list))[i] < list.len());
    }
}

/// The pages visited most often come the most visited first, and no more than asked for.
pub proof fn law_top_pages_busiest_first(rows: Seq<Place>, limit: u32)
    ensures
        top_rows(rows, limit).len() <= limit,
        forall|i: int|
            0 <= i < top_rows(rows, limit).len() ==> ((#[trigger] top_rows(
                rows,
                limit,
            )[i]).visit_count matches Some(n) && n > 0),
        forall|i: int, j: int|
            0 <= i < j < top_rows(rows, limit).len() ==> (#[trigger] top_rows(
                rows,
                limit,
            )[i]).visit_count.unwrap() >= (#[trigger] top_rows(rows, limit)[j]).visit_count.unwrap(),
{
    let flags = visited_flags(rows);
    let list = kept(rows, flags);
    lemma_kept(rows, flags, |p: Place| p.visit_count matches Some(n) && n > 0);
    lemma_arranged_by(list, busiest_keys(list), |p: Place| largest_first(p.visit_count));
    lemma_stable_order(busiest_keys(list));
    let sorted = arranged(list, busiest_keys(list));
    assert forall|i: int| 0 <= i < sorted.len() implies ((
    #[trigger] sorted[i]).visit_count matches Some(n) && n > 0) by {
        assert(0 <= stable_order(busiest_keys(list))[i] < list.len());
    }
}

/// A later time comes first, and no time comes last.
pub open spec fn larger(a: Option<i64>, b: Option<i64>) -> bool {
    match (a, b) {
        (Some(m), Some(n)) => m > n,
        (Some(_), None) => true,
        _ => false,
    }
}

/// The recent pages of the history are all that were visited and have a time, the newest first;
/// the top pages are all that were visited, the busiest first; both as far as the limit goes.
pub proof fn law_no_visited_page_is_missed(rows: Seq<Place>, limit: u32)
    ensures
        exists|whole: Seq<Place>|
            #[trigger] is_part(recent_rows(rows, limit), whole, 0, limit as nat) && sorted(
                rows.len(),
                whole,
                |i: int|
                    rows[i].visit_count is Some && rows[i].visit_count->0 > 0
                        && rows[i].last_visit_date is Some,
                |i: int| rows[i],
                |i: int, j: int| larger(rows[i].last_visit_date, rows[j].last_visit_date),
            ),
        exists|whole: Seq<Place>|
            #[trigger] is_part(top_rows(rows, limit), whole, 0, limit as nat) && sorted(
                rows.len(),
                whole,
                |i: int| rows[i].visit_count is Some && rows[i].visit_count->0 > 0,
                |i: int| rows[i],
                |i: int, j: int| larger(rows[i].visit_count, rows[j].visit_count),
            ),
{
    let same = |p: Place| p;
    lemma_seq_before_total(Seq::empty(), Seq::empty());
    let recent = kept(rows, dated_flags(rows));
    let newest = arranged(recent, newest_keys(recent));
    assert(newest.map_values(same) =~= newest);
    lemma_kept_and_sorted(
        rows,
        dated_flags(rows),
        newest_keys(recent),
        |p: Place| largest_first(p.last_visit_date),
        same,
        newest,
        |i: int|
            rows[i].visit_count is Some && rows[i].visit_count->0 > 0
                && rows[i].last_visit_date is Some,
        |i: int| rows[i],
        |i: int, j: int| larger(rows[i].last_visit_date, rows[j].last_visit_date),
    );
    assert(is_part(recent_rows(rows, limit), newest, 0, limit as nat));
    let seen = kept(rows, visited_flags(rows));
    let busiest = arranged(seen, busiest_keys(seen));
    assert(busiest.map_values(same) =~= busiest);
    lemma_kept_and_sorted(
        rows,
        visited_flags(rows),
        busiest_keys(seen),
        |p: Place| largest_first(p.visit_count),
        same,
        busiest,
        |i: int| rows[i].visit_count is Some && rows[i].visit_count->0 > 0,
        |i: int| rows[i],
        |i: int, j: int| larger(rows[i].visit_count, rows[j].visit_count),
    );
    assert(is_part(top_rows(rows, limit), busiest, 0, limit as nat));
}

/// A page of the history has the URL, the title and the number of visits of its row, the host of
/// its URL, and its last visit, which the row counts in microseconds from 1970 on.
pub proof fn law_a_place_is_taken_as_it_is(row: Place)
    requires
        row.url is Some && row.visit_count is Some,
    ensures
        ({
            let item = place_item(row);
            &&& item.id == row.id
            &&& item.url == row.url->0@
            &&& item.title == opt(row.title)
            &&& item.host == host_of(row.url->0@)
            &&& item.visit_count == row.visit_count->0
            &&& row.last_visit_date is None ==> item.last_visit_time == (Timestamp {
                secs: 0,
                nanos: 0,
            })
            &&& row.last_visit_date is Some && 0 <= row.last_visit_date->0
                < 8_000_000_000_000_000_000 ==> item.last_visit_time.secs as int * 1_000_000_000
                + item.last_visit_time.nanos == row.last_visit_date->0 as int * 1_000
                && item.last_visit_time.nanos < 1_000_000_000
        }),
{
}

} // verus!
