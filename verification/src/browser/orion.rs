//! The history of Orion.

use vstd::prelude::*;
use vstd::string::*;

use crate::browser::{largest_first, largest_first_key, visited, HistoryItem, MissingValue, Visited};
use crate::json::{entries, lemma_tree, trees, Json, Tree};
use crate::order::{
    arranged, codes_down, first_n, is_part, law_codes_down_reverse_the_order, lemma_all_sorted,
    lemma_arranged_by, lemma_seq_before_total, rank_before, ranks, sort_by_keys, sorted, take_first,
    text_before, Key, Rank,
};
use crate::text::{has_prefix, opt, opt_bytes, pairs, starts_with};
use crate::time::{read_as, read_time, Timestamp};

verus! {

/// What a name stands for in a dictionary: the first of three names that is there.
pub open spec fn link_value(t: Tree) -> Option<Tree> {
    match t.get("URLString"@) {
        Some(v) => Some(v),
        None => match t.get("url"@) {
            Some(v) => Some(v),
            None => t.get("URL"@),
        },
    }
}

/// The link of a dictionary, where it has one.
pub open spec fn link_of(t: Tree) -> Option<Seq<char>> {
    match link_value(t) {
        Some(v) => v.as_text(),
        None => None,
    }
}

/// The title of a dictionary: its own, or that of its inner dictionary, or none.
pub open spec fn link_title(t: Tree) -> Seq<char> {
    match t.text_at("title"@) {
        Some(s) => s,
        None => match t.get("URIDictionary"@) {
            Some(inner) => match inner.text_at("title"@) {
                Some(s) => s,
                None => ""@,
            },
            None => ""@,
        },
    }
}

/// A link to a web page.
pub open spec fn is_web_link(url: Seq<char>) -> bool {
    has_prefix(url, "http://"@) || has_prefix(url, "https://"@)
}

/// The links of a reading list, with their titles: a dictionary that has a link stands for it,
/// unless it leads elsewhere than to a web page, and any other is searched.
pub open spec fn links(t: Tree) -> Seq<(Seq<char>, Seq<char>)>
    decreases t,
{
    match t {
        Tree::List(list) => links_in(list),
        Tree::Object(list) => match link_of(t) {
            Some(url) => if is_web_link(url) {
                seq![(url, link_title(t))]
            } else {
                Seq::empty()
            },
            None => links_under(list),
        },
        _ => Seq::empty(),
    }
}

/// The links in a list.
pub open spec fn links_in(list: Seq<Tree>) -> Seq<(Seq<char>, Seq<char>)>
    decreases list,
{
    if list.len() == 0 {
        Seq::empty()
    } else {
        links_in(list.drop_last()) + links(list.last())
    }
}

/// The links under the names of a dictionary.
pub open spec fn links_under(list: Seq<(Seq<char>, Tree)>) -> Seq<(Seq<char>, Seq<char>)>
    decreases list,
{
    if list.len() == 0 {
        Seq::empty()
    } else {
        links_under(list.drop_last()) + links(list.last().1)
    }
}

/// What the name of a link stands for in a dictionary.
fn find_link<'a>(value: &'a Json) -> (r: Option<&'a str>)
    ensures
        match r {
            Some(s) => link_of(value.tree()) == Some(s@),
            None => link_of(value.tree()) is None,
        },
{
    let found: Option<&Json> = match value.get("URLString") {
        Some(v) => Some(v),
        None => match value.get("url") {
            Some(v) => Some(v),
            None => value.get("URL"),
        },
    };
    match found {
        Some(v) => v.text(),
        None => None,
    }
}

/// The title of a dictionary.
fn find_title(value: &Json) -> (r: String)
    ensures
        r@ == link_title(value.tree()),
{
    match value.text_at("title") {
        Some(s) => s.to_owned(),
        None => match value.get("URIDictionary") {
            Some(inner) => match inner.text_at("title") {
                Some(s) => s.to_owned(),
                None => "".to_owned(),
            },
            None => "".to_owned(),
        },
    }
}

/// Appends the links of a reading list, with their titles.
#[verifier::loop_isolation(false)]
pub fn collect_items(value: &Json, out: &mut Vec<(String, String)>)
    ensures
        pairs(final(out)@) == pairs(old(out)@) + links(value.tree()),
    decreases value,
{
    let ghost before = pairs(out@);
    proof {
        lemma_tree(*value);
    }
    match value {
        Json::List(v) => {
            let ghost all = trees(v@);
            let mut i: usize = 0;
            assert(before + links_in(all.take(0)) =~= before);
            while i < v.len()
                invariant
                    i <= v.len(),
                    pairs(out@) == before + links_in(all.take(i as int)),
                decreases v.len() - i,
            {
                let ghost t = all.take(i as int + 1);
                assert(t.drop_last() =~= all.take(i as int));
                assert(t.last() == v@[i as int].tree());
                assert(decreases_to!(*v => v@[i as int]));
                collect_items(&v[i], out);
                assert(pairs(out@) =~= before + links_in(t));
                i = i + 1;
            }
            assert(all.take(all.len() as int) =~= all);
        },
        Json::Object(v) => {
            match find_link(value) {
                Some(url) => {
                    if starts_with(url, "http://") || starts_with(url, "https://") {
                        let ghost o = out@;
                        let title: String = find_title(value);
                        out.push((url.to_owned(), title));
                        assert(pairs(out@) =~= pairs(o) + seq![
                            (url@, link_title(value.tree())),
                        ]);
                    } else {
                        assert(pairs(out@) =~= before + Seq::empty());
                    }
                },
                None => {
                    let ghost all = entries(v@);
                    let mut i: usize = 0;
                    assert(before + links_under(all.take(0)) =~= before);
                    while i < v.len()
                        invariant
                            i <= v.len(),
                            pairs(out@) == before + links_under(all.take(i as int)),
                        decreases v.len() - i,
                    {
                        let ghost t = all.take(i as int + 1);
                        assert(t.drop_last() =~= all.take(i as int));
                        assert(t.last().1 == v@[i as int].1.tree());
                        assert(decreases_to!(*v => v@[i as int]));
                        collect_items(&v[i].1, out);
                        assert(pairs(out@) =~= before + links_under(t));
                        i = i + 1;
                    }
                    assert(all.take(all.len() as int) =~= all);
                },
            }
        },
        _ => {
            assert(pairs(out@) =~= before + Seq::empty());
        },
    }
}

/// The links of a reading list, with their titles.
pub fn reading_list(value: &Json) -> (r: Vec<(String, String)>)
    ensures
        pairs(r@) == links(value.tree()),
{
    let mut out: Vec<(String, String)> = Vec::new();
    collect_items(value, &mut out);
    assert(pairs(out@) =~= links(value.tree()));
    out
}

/// A property list as `plist` holds it.
#[verifier::external_type_specification]
#[verifier::external_body]
pub struct ExPlistValue(plist::Value);

/// The tree that a `plist::Value` holds: its arrays, dictionaries and texts, with nothing in the
/// place of any other value.
pub uninterp spec fn held_list(v: plist::Value) -> Tree;

/// The tree that the bytes of a property list stand for, and none where they are no such list.
pub uninterp spec fn parsed_plist(bytes: Seq<u8>) -> Option<Tree>;

/// Reads the bytes of a property list.
///
/// Calls `plist::Value::from_reader`. Claimed: whether there is a list, and the tree that it
/// holds, depend on the bytes alone.
#[verifier::external_body]
fn parse_plist(bytes: &Vec<u8>) -> (r: Option<plist::Value>)
    ensures
        match r {
            Some(v) => parsed_plist(bytes@) == Some(held_list(v)),
            None => parsed_plist(bytes@) is None,
        },
{
    plist::Value::from_reader(std::io::Cursor::new(bytes)).ok()
}

/// Takes a property list apart.
///
/// Matches on the variants of `plist::Value`. Claimed: the result stands for the tree that the
/// list holds.
#[verifier::external_body]
fn unpacked_plist(v: plist::Value) -> (r: Json)
    ensures
        r.tree() == held_list(v),
{
    match v {
        plist::Value::Array(a) => Json::List(a.into_iter().map(unpacked_plist).collect()),
        plist::Value::Dictionary(d) => {
            Json::Object(d.into_iter().map(|(k, v)| (k, unpacked_plist(v))).collect())
        },
        plist::Value::String(s) => Json::Text(s),
        _ => Json::Null,
    }
}

/// The links in the bytes of a reading list: none where there are no bytes, or where they are
/// no property list.
pub open spec fn stored_links(file: Option<Seq<u8>>) -> Seq<(Seq<char>, Seq<char>)> {
    match file {
        Some(bytes) => match parsed_plist(bytes) {
            Some(t) => links(t),
            None => Seq::empty(),
        },
        None => Seq::empty(),
    }
}

/// The links in a stored reading list, with their titles.
pub fn read_reading_list(file: &Option<Vec<u8>>) -> (r: Vec<(String, String)>)
    ensures
        pairs(r@) == stored_links(opt_bytes(*file)),
{
    if let Some(bytes) = file {
        if let Some(v) = parse_plist(bytes) {
            return reading_list(&unpacked_plist(v));
        }
    }
    let r: Vec<(String, String)> = Vec::new();
    assert(pairs(r@) =~= Seq::empty());
    r
}

/// Every link of a reading list leads to a web page.
pub proof fn law_links_lead_to_web_pages(t: Tree)
    ensures
        forall|i: int| 0 <= i < links(t).len() ==> is_web_link((#[trigger] links(t)[i]).0),
    decreases t,
{
    let found = links(t);
    assert forall|i: int| 0 <= i < found.len() implies is_web_link((#[trigger] found[i]).0) by {
        if let Tree::List(list) = t {
            lemma_links_in(list);
            assert(is_web_link(links_in(list)[i].0));
        }
        if let Tree::Object(list) = t {
            if link_of(t) is None {
                lemma_links_under(list);
                assert(is_web_link(links_under(list)[i].0));
            }
        }
    }
}

proof fn lemma_links_in(list: Seq<Tree>)
    ensures
        forall|i: int| 0 <= i < links_in(list).len() ==> is_web_link((#[trigger] links_in(list)[i]).0),
    decreases list,
{
    if list.len() > 0 {
        lemma_links_in(list.drop_last());
        law_links_lead_to_web_pages(list.last());
        let a = links_in(list.drop_last());
        let b = links(list.last());
        assert forall|i: int| 0 <= i < (a + b).len() implies is_web_link((#[trigger] (a + b)[i]).0) by {
            if i < a.len() {
                assert((a + b)[i] == a[i]);
            } else {
                assert((a + b)[i] == b[i - a.len()]);
            }
        }
    }
}

proof fn lemma_links_under(list: Seq<(Seq<char>, Tree)>)
    ensures
        forall|i: int|
            0 <= i < links_under(list).len() ==> is_web_link((#[trigger] links_under(list)[i]).0),
    decreases list,
{
    if list.len() > 0 {
        lemma_links_under(list.drop_last());
        law_links_lead_to_web_pages(list.last().1);
        let a = links_under(list.drop_last());
        let b = links(list.last().1);
        assert forall|i: int| 0 <= i < (a + b).len() implies is_web_link((#[trigger] (a + b)[i]).0) by {
            if i < a.len() {
                assert((a + b)[i] == a[i]);
            } else {
                assert((a + b)[i] == b[i - a.len()]);
            }
        }
    }
}

/// The history of Orion.
pub struct OrionBrowser;

/// A row of the history.
#[derive(Debug)]
pub struct OrionRow {
    pub id: i64,
    pub url: Option<String>,
    pub title: Option<String>,
    pub host: Option<String>,
    pub last_visit_time: Option<String>,
    pub visit_count: Option<i64>,
}

/// The time that a text stands for under either of two patterns, with a space or a `T` between
/// the date and the time of day; the start of 1970 where it stands for none.
pub open spec fn orion_time(s: Seq<char>) -> (int, int) {
    match read_time(s, "%Y-%m-%d %H:%M:%S"@) {
        Some(t) => t,
        None => match read_time(s, "%Y-%m-%dT%H:%M:%S"@) {
            Some(t) => t,
            None => (0, 0),
        },
    }
}

/// The first of two readings of a time that is there, and the start of 1970 where neither is.
pub fn settle_time(first: Option<Timestamp>, second: Option<Timestamp>) -> (r: Timestamp)
    ensures
        r == match first {
            Some(t) => t,
            None => match second {
                Some(t) => t,
                None => Timestamp::start(),
            },
        },
{
    match first {
        Some(t) => t,
        None => match second {
            Some(t) => t,
            None => Timestamp { secs: 0, nanos: 0 },
        },
    }
}

/// The time that a text stands for.
pub fn parse_timestamp(s: &str) -> (r: Timestamp)
    ensures
        (r.secs as int, r.nanos as int) == orion_time(s@),
        r.valid(),
{
    settle_time(read_as(s, "%Y-%m-%d %H:%M:%S"), read_as(s, "%Y-%m-%dT%H:%M:%S"))
}

/// A row has all the values that a page has.
pub open spec fn is_complete(row: OrionRow) -> bool {
    row.url is Some && row.host is Some && row.last_visit_time is Some && row.visit_count is Some
}

/// Every row has all the values that a page has.
pub open spec fn complete(rows: Seq<OrionRow>) -> bool {
    forall|i: int| 0 <= i < rows.len() ==> is_complete(#[trigger] rows[i])
}

/// The page that a row stands for.
pub open spec fn is_item(row: OrionRow, item: Visited) -> bool {
    &&& item.id == row.id
    &&& item.url == row.url.unwrap()@
    &&& item.title == opt(row.title)
    &&& item.host == row.host.unwrap()@
    &&& (item.last_visit_time.secs as int, item.last_visit_time.nanos as int) == orion_time(
        row.last_visit_time.unwrap()@,
    )
    &&& item.last_visit_time.valid()
    &&& item.visit_count == row.visit_count.unwrap()
}

/// The pages that rows stand for.
pub open spec fn are_items(rows: Seq<OrionRow>, items: Seq<Visited>) -> bool {
    rows.len() == items.len() && forall|i: int|
        0 <= i < rows.len() ==> is_item(rows[i], #[trigger] items[i])
}

/// The sorting key of a text that may be missing: descending, and missing ones last.
pub open spec fn text_down(s: Option<Seq<char>>) -> Rank {
    match s {
        Some(s) => Rank { major: 0, minor: 0, text: codes_down(s) },
        None => Rank { major: 1, minor: 0, text: codes_down(""@) },
    }
}

/// The sorting key of a text that may be missing: descending, and missing ones last.
pub fn text_down_key(s: &Option<String>) -> (r: Key)
    ensures
        r@ == text_down(opt(*s)),
{
    match s {
        Some(s) => Key::number_and_text_down(0, s.as_str()),
        None => Key::number_and_text_down(1, ""),
    }
}

/// The sorting keys of rows: the last visited first.
pub open spec fn newest_keys(rows: Seq<OrionRow>) -> Seq<Rank> {
    Seq::new(rows.len(), |i: int| text_down(opt(rows[i].last_visit_time)))
}

/// The sorting keys of rows: the most visited first.
pub open spec fn busiest_keys(rows: Seq<OrionRow>) -> Seq<Rank> {
    Seq::new(rows.len(), |i: int| largest_first(rows[i].visit_count))
}

/// The rows of the recent history.
pub open spec fn recent_rows(rows: Seq<OrionRow>, limit: u32) -> Seq<OrionRow> {
    first_n(arranged(rows, newest_keys(rows)), limit as nat)
}

/// The rows of the most visited pages.
pub open spec fn top_rows(rows: Seq<OrionRow>, limit: u32) -> Seq<OrionRow> {
    first_n(arranged(rows, busiest_keys(rows)), limit as nat)
}

/// The page that a row stands for, where it has all the values.
fn map_row(row: OrionRow) -> (r: Result<HistoryItem, MissingValue>)
    ensures
        match r {
            Ok(item) => is_complete(row) && is_item(row, item@),
            Err(_) => !is_complete(row),
        },
{
    match (row.url, row.host, row.last_visit_time, row.visit_count) {
        (Some(url), Some(host), Some(time), Some(visit_count)) => Ok(
            HistoryItem {
                id: row.id,
                url,
                title: row.title,
                host,
                last_visit_time: parse_timestamp(time.as_str()),
                visit_count,
            },
        ),
        _ => Err(MissingValue),
    }
}

/// The pages that rows stand for.
fn map_rows(rows: Vec<OrionRow>) -> (r: Result<Vec<HistoryItem>, MissingValue>)
    ensures
        match r {
            Ok(items) => complete(rows@) && are_items(rows@, visited(items@)),
            Err(_) => !complete(rows@),
        },
{
    let ghost whole = rows@;
    let n: usize = rows.len();
    let mut waiting: Vec<OrionRow> = rows;
    crate::order::reverse(&mut waiting);
    let mut out: Vec<HistoryItem> = Vec::new();
    let mut i: usize = 0;
    while i < n
        invariant
            i <= n,
            whole == rows@,
            n == whole.len(),
            waiting@.len() == n - i,
            forall|k: int| 0 <= k < waiting@.len() ==> #[trigger] waiting@[k] == whole[n - 1 - k],
            out@.len() == i,
            forall|k: int| 0 <= k < i ==> is_complete(#[trigger] whole[k]),
            forall|k: int| 0 <= k < i ==> is_item(whole[k], (#[trigger] out@[k])@),
        decreases n - i,
    {
        let row: OrionRow = waiting.pop().unwrap();
        assert(row == whole[i as int]);
        match map_row(row) {
            Ok(item) => {
                out.push(item);
            },
            Err(e) => {
                assert(!is_complete(whole[i as int]));
                return Err(e);
            },
        }
        i = i + 1;
    }
    assert forall|k: int| 0 <= k < whole.len() implies is_item(
        whole[k],
        #[trigger] visited(out@)[k],
    ) by {
        assert(is_item(whole[k], out@[k]@));
    }
    Ok(out)
}

/// The pages last visited, newest first. An error where one of them lacks a value.
pub fn recent(rows: Vec<OrionRow>, limit: u32) -> (r: Result<Vec<HistoryItem>, MissingValue>)
    ensures
        match r {
            Ok(items) => complete(recent_rows(rows@, limit)) && are_items(
                recent_rows(rows@, limit),
                visited(items@),
            ),
            Err(_) => !complete(recent_rows(rows@, limit)),
        },
{
    let mut keys: Vec<Key> = Vec::new();
    let mut j: usize = 0;
    while j < rows.len()
        invariant
            j <= rows.len(),
            keys@.len() == j,
            forall|k: int| 0 <= k < j ==> (#[trigger] keys@[k])@ == newest_keys(rows@)[k],
        decreases rows.len() - j,
    {
        keys.push(text_down_key(&rows[j].last_visit_time));
        j = j + 1;
    }
    assert(ranks(keys@) =~= newest_keys(rows@));
    map_rows(take_first(sort_by_keys(rows, &keys), limit as usize))
}

/// The pages visited most often, the most visited first. An error where one of them lacks a
/// value.
pub fn top_sites(rows: Vec<OrionRow>, limit: u32) -> (r: Result<Vec<HistoryItem>, MissingValue>)
    ensures
        match r {
            Ok(items) => complete(top_rows(rows@, limit)) && are_items(
                top_rows(rows@, limit),
                visited(items@),
            ),
            Err(_) => !complete(top_rows(rows@, limit)),
        },
{
    let mut keys: Vec<Key> = Vec::new();
    let mut j: usize = 0;
    while j < rows.len()
        invariant
            j <= rows.len(),
            keys@.len() == j,
            forall|k: int| 0 <= k < j ==> (#[trigger] keys@[k])@ == busiest_keys(rows@)[k],
        decreases rows.len() - j,
    {
        keys.push(largest_first_key(rows[j].visit_count));
        j = j + 1;
    }
    assert(ranks(keys@) =~= busiest_keys(rows@));
    map_rows(take_first(sort_by_keys(rows, &keys), limit as usize))
}

impl OrionBrowser {
    /// The pages last visited, newest first.
    pub fn recent(&self, rows: Vec<OrionRow>, limit: u32) -> (r: Result<
        Vec<HistoryItem>,
        MissingValue,
    >)
        ensures
            match r {
                Ok(items) => complete(recent_rows(rows@, limit)) && are_items(
                    recent_rows(rows@, limit),
                    visited(items@),
                ),
                Err(_) => !complete(recent_rows(rows@, limit)),
            },
    {
        recent(rows, limit)
    }

    /// The pages visited most often, the most visited first.
    pub fn top_sites(&self, rows: Vec<OrionRow>, limit: u32) -> (r: Result<
        Vec<HistoryItem>,
        MissingValue,
    >)
        ensures
            match r {
                Ok(items) => complete(top_rows(rows@, limit)) && are_items(
                    top_rows(rows@, limit),
                    visited(items@),
                ),
                Err(_) => !complete(top_rows(rows@, limit)),
            },
    {
        top_sites(rows, limit)
    }

    /// The links in the stored reading list, with their titles.
    pub fn reading_list_items(&self, file: &Option<Vec<u8>>) -> (r: Vec<(String, String)>)
        ensures
            pairs(r@) == stored_links(opt_bytes(*file)),
    {
        read_reading_list(file)
    }
}

/// The recent history has the newest visit first, in the order of the stored texts, rows without
/// a time last, and no more than asked for.
pub proof fn law_recent_rows_newest_first(rows: Seq<OrionRow>, limit: u32)
    ensures
        recent_rows(rows, limit).len() <= limit,
        forall|i: int, j: int|
            0 <= i < j < recent_rows(rows, limit).len() ==> ((#[trigger] recent_rows(
                rows,
                limit,
            )[j]).last_visit_time matches Some(later) ==> ((#[trigger] recent_rows(
                rows,
                limit,
            )[i]).last_visit_time matches Some(first) && !text_before(first@, later@))),
{
    lemma_arranged_by(rows, newest_keys(rows), |r: OrionRow| text_down(opt(r.last_visit_time)));
    let sorted = arranged(rows, newest_keys(rows));
    assert forall|i: int, j: int| 0 <= i < j < sorted.len() implies ((
    #[trigger] sorted[j]).last_visit_time matches Some(later) ==> ((
    #[trigger] sorted[i]).last_visit_time matches Some(first) && !text_before(first@, later@))) by {
        if let (Some(first), Some(later)) = (sorted[i].last_visit_time, sorted[j].last_visit_time) {
            law_codes_down_reverse_the_order(later@, first@);
        }
    }
}

/// The pages visited most often come the most visited first, rows without a count last, and no
/// more than asked for.
pub proof fn law_top_rows_busiest_first(rows: Seq<OrionRow>, limit: u32)
    ensures
        top_rows(rows, limit).len() <= limit,
        forall|i: int, j: int|
            0 <= i < j < top_rows(rows, limit).len() ==> ((#[trigger] top_rows(
                rows,
                limit,
            )[j]).visit_count matches Some(less) ==> ((#[trigger] top_rows(
                rows,
                limit,
            )[i]).visit_count matches Some(more) && more >= less)),
{
    lemma_arranged_by(rows, busiest_keys(rows), |r: OrionRow| largest_first(r.visit_count));
}

/// A larger number comes first, and none comes last.
pub open spec fn busier(a: Option<i64>, b: Option<i64>) -> bool {
    match (a, b) {
        (Some(m), Some(n)) => m > n,
        (Some(_), None) => true,
        _ => false,
    }
}

/// A later time comes first, and no time comes last.
pub open spec fn later(a: Option<Seq<char>>, b: Option<Seq<char>>) -> bool {
    match (a, b) {
        (Some(s), Some(t)) => text_before(t, s),
        (Some(_), None) => true,
        _ => false,
    }
}

/// The recent pages are all of the history, the newest first, and the top ones are all, the
/// busiest first; both as far as the limit goes.
pub proof fn law_no_row_is_missed(rows: Seq<OrionRow>, limit: u32)
    ensures
        exists|whole: Seq<OrionRow>|
            #[trigger] is_part(recent_rows(rows, limit), whole, 0, limit as nat) && sorted(
                rows.len(),
                whole,
                |i: int| true,
                |i: int| rows[i],
                |i: int, j: int| later(opt(rows[i].last_visit_time), opt(rows[j].last_visit_time)),
            ),
        exists|whole: Seq<OrionRow>|
            #[trigger] is_part(top_rows(rows, limit), whole, 0, limit as nat) && sorted(
                rows.len(),
                whole,
                |i: int| true,
                |i: int| rows[i],
                |i: int, j: int| busier(rows[i].visit_count, rows[j].visit_count),
            ),
{
    lemma_seq_before_total(Seq::empty(), Seq::empty());
    lemma_seq_before_total(codes_down(""@), codes_down(""@));
    let newest = arranged(rows, newest_keys(rows));
    let key = |r: OrionRow| text_down(opt(r.last_visit_time));
    let first = |i: int, j: int|
        later(opt(rows[i].last_visit_time), opt(rows[j].last_visit_time));
    assert forall|i: int, j: int| 0 <= i < rows.len() && 0 <= j < rows.len() implies #[trigger] first(
        i,
        j,
    ) == rank_before(key(rows[i]), key(rows[j])) by {
        if let (Some(s), Some(t)) = (opt(rows[i].last_visit_time), opt(rows[j].last_visit_time)) {
            law_codes_down_reverse_the_order(s, t);
        }
    }
    lemma_all_sorted(rows, newest_keys(rows), key, first);
    assert(is_part(recent_rows(rows, limit), newest, 0, limit as nat));
    let busiest = arranged(rows, busiest_keys(rows));
    lemma_all_sorted(
        rows,
        busiest_keys(rows),
        |r: OrionRow| largest_first(r.visit_count),
        |i: int, j: int| busier(rows[i].visit_count, rows[j].visit_count),
    );
    assert(is_part(top_rows(rows, limit), busiest, 0, limit as nat));
}

/// The links of a list are those of all its entries, in their order; the link of a dictionary
/// that has one is that one, with its title, where it leads to the web; a dictionary without one
/// has the links of all its values.
pub proof fn law_every_link_is_found(a: Seq<Tree>, b: Seq<Tree>, t: Tree)
    ensures
        links(Tree::List(a + b)) == links(Tree::List(a)) + links(Tree::List(b)),
        links(Tree::List(seq![t])) == links(t),
        t is Object && link_of(t) is Some ==> links(t) == if has_prefix(link_of(t)->0, "http://"@)
            || has_prefix(link_of(t)->0, "https://"@) {
            seq![(link_of(t)->0, link_title(t))]
        } else {
            Seq::empty()
        },
        t is Object && link_of(t) is None ==> links(t) == links_under(t->Object_0),
        t is Object && t.get("URLString"@) is Some ==> link_of(t) == t.get("URLString"@)->0.as_text(),
        t is Object && t.get("URLString"@) is None && t.get("url"@) is Some ==> link_of(t) == t.get(
            "url"@,
        )->0.as_text(),
        t is Object && t.get("URLString"@) is None && t.get("url"@) is None && t.get("URL"@) is Some
            ==> link_of(t) == t.get("URL"@)->0.as_text(),
{
    lemma_links_of_parts(a, b);
    let one = seq![t];
    assert(one.drop_last() =~= Seq::empty());
    assert(links_in(one.drop_last()).len() == 0);
    assert(links_in(one) == links_in(one.drop_last()) + links(one.last()));
    assert(links_in(one) =~= links(t));
}

proof fn lemma_links_of_parts(a: Seq<Tree>, b: Seq<Tree>)
    ensures
        links_in(a + b) == links_in(a) + links_in(b),
    decreases b.len(),
{
    if b.len() == 0 {
        assert(a + b =~= a);
        assert(links_in(a) + links_in(b) =~= links_in(a));
    } else {
        assert((a + b).drop_last() =~= a + b.drop_last());
        lemma_links_of_parts(a, b.drop_last());
        assert(links_in(a + b) =~= links_in(a) + links_in(b));
    }
}

/// The title of a link is its own, else the one in its dictionary of names, else empty; the time of
/// a visit is read in either of two forms, and is the start of time counting otherwise.
pub proof fn law_titles_and_times_of_links(t: Tree, s: Seq<char>)
    ensures
        t.text_at("title"@) matches Some(title) ==> link_title(t) == title,
        t.text_at("title"@) is None && t.get("URIDictionary"@) is Some && t.get(
            "URIDictionary"@,
        )->0.text_at("title"@) is Some ==> link_title(t) == t.get("URIDictionary"@)->0.text_at(
            "title"@,
        )->0,
        read_time(s, "%Y-%m-%d %H:%M:%S"@) matches Some(at) ==> orion_time(s) == at,
        read_time(s, "%Y-%m-%d %H:%M:%S"@) is None ==> (read_time(s, "%Y-%m-%dT%H:%M:%S"@) matches Some(
            at,
        ) ==> orion_time(s) == at),
        read_time(s, "%Y-%m-%d %H:%M:%S"@) is None && read_time(s, "%Y-%m-%dT%H:%M:%S"@) is None
            ==> orion_time(s) == (0int, 0int),
{
}

} // verus!
