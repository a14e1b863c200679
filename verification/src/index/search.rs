//! Searching the index.

use vstd::prelude::*;
use vstd::string::*;

use crate::config::{host_from_url, host_of};
use crate::index::store::{
    exported, text_precedes, ExportPage, Exported, FetchStatus, FullExport, IndexStore, PageRow,
    Row, Tables,
};
use crate::index::query::{latest_first, latest_keys, lemma_by_visit, status_flags, visited_before};
use crate::lists::{
    count, count_of, distinct, distinct_texts, list_contains, picked, picks, push_text,
};
use crate::order::{
    arranged, codes, first_n, flagged, is_part, kept, law_kept_entries_are_the_flagged_ones,
    law_sorting_keeps_every_entry, lemma_arranged_by, lemma_arranged_map, lemma_kept_and_changed,
    lemma_kept_and_sorted, lemma_kept_at, lemma_kept_len, lemma_kept_members, ranks, sort_by_keys,
    sorted, take_first, text_before, Key, Rank,
};
use crate::score::Number;
use crate::text::{at_most, contains, contains_text, copied, opt, same_text, take_chars, texts};

verus! {

/// A page that was found.
#[derive(Debug)]
pub struct SearchResult {
    pub url: String,
    pub title: String,
    pub snippet: String,
    pub rank: Number,
    pub first_visit_at: Option<String>,
    pub last_visit_at: Option<String>,
    pub starred: bool,
}

/// What a page that was found stands for.
#[verifier::ext_equal]
pub struct Found {
    pub url: Seq<char>,
    pub title: Seq<char>,
    pub snippet: Seq<char>,
    pub rank: Number,
    pub first_visit_at: Option<Seq<char>>,
    pub last_visit_at: Option<Seq<char>>,
    pub starred: bool,
}

impl View for SearchResult {
    type V = Found;

    open spec fn view(&self) -> Found {
        Found {
            url: self.url@,
            title: self.title@,
            snippet: self.snippet@,
            rank: self.rank,
            first_visit_at: opt(self.first_visit_at),
            last_visit_at: opt(self.last_visit_at),
            starred: self.starred,
        }
    }
}

/// What pages that were found stand for.
pub open spec fn founds(list: Seq<SearchResult>) -> Seq<Found> {
    list.map_values(|r: SearchResult| r@)
}

impl SearchResult {
    /// A copy.
    pub fn duplicate(&self) -> (r: SearchResult)
        ensures
            r@ == self@,
    {
        SearchResult {
            url: self.url.clone(),
            title: self.title.clone(),
            snippet: self.snippet.clone(),
            rank: self.rank,
            first_visit_at: copied(&self.first_visit_at),
            last_visit_at: copied(&self.last_visit_at),
            starred: self.starred,
        }
    }
}

/// A page that is found by its URL: without an excerpt, and under its URL where it has no title.
pub open spec fn plain_hit(row: Row) -> Found {
    Found {
        url: row.url,
        title: if row.title.len() > 0 {
            row.title
        } else {
            row.url
        },
        snippet: Seq::empty(),
        rank: Number { bits: 0 },
        first_visit_at: row.first_visit_at,
        last_visit_at: row.last_visit_at,
        starred: row.starred,
    }
}

/// A page that is found by its URL.
fn make_hit(row: &PageRow) -> (r: SearchResult)
    ensures
        r@ == plain_hit(row@),
{
    let title: String = if row.title.as_str().unicode_len() > 0 {
        row.title.clone()
    } else {
        row.url.clone()
    };
    let r = SearchResult {
        url: row.url.clone(),
        title,
        snippet: String::new(),
        rank: Number { bits: 0 },
        first_visit_at: copied(&row.first_visit_at),
        last_visit_at: copied(&row.last_visit_at),
        starred: row.starred,
    };
    assert(r@ =~= plain_hit(row@));
    r
}

/// Pages that are found by their URL.
pub open spec fn plain_hits(list: Seq<Row>) -> Seq<Found> {
    list.map_values(|row: Row| plain_hit(row))
}

/// Which pages have a text in their URL.
pub open spec fn url_flags(list: Seq<Row>, part: Seq<char>) -> Seq<bool> {
    list.map_values(|row: Row| contains_text(row.url, part))
}

/// A page with this URL is among those that were found.
pub open spec fn is_found(list: Seq<Found>, url: Seq<char>) -> bool {
    exists|i: int| 0 <= i < list.len() && (#[trigger] list[i]).url == url
}

/// Those of a list of pages whose URL was not found before.
pub open spec fn unseen(list: Seq<Found>, seen: Seq<Found>) -> Seq<Found>
    decreases list.len(),
{
    if list.len() == 0 {
        Seq::empty()
    } else if is_found(seen, list.last().url) {
        unseen(list.drop_last(), seen)
    } else {
        unseen(list.drop_last(), seen).push(list.last())
    }
}

/// How many more pages may be found.
pub open spec fn room(limit: u32, found: nat) -> nat {
    if found >= limit {
        0
    } else {
        (limit - found) as nat
    }
}

/// The pages that a search finds: those that have its words, then, as far as there is room,
/// those that have it in their URL.
pub open spec fn search_results(t: Tables, by_words: Seq<Found>, query: Seq<char>, limit: u32) -> Seq<
    Found,
> {
    let by_url = first_n(
        plain_hits(kept(t.pages, url_flags(t.pages, query))),
        room(limit, by_words.len()),
    );
    by_words + unseen(by_url, by_words)
}

/// Whether a page with this URL is among those that were found.
pub fn holds(list: &Vec<SearchResult>, url: &str) -> (r: bool)
    ensures
        r == is_found(founds(list@), url@),
{
    let mut i: usize = 0;
    while i < list.len()
        invariant
            i <= list.len(),
            forall|k: int| 0 <= k < i ==> (#[trigger] founds(list@)[k]).url != url@,
        decreases list.len() - i,
    {
        if same_text(list[i].url.as_str(), url) {
            assert(founds(list@)[i as int].url == url@);
            return true;
        }
        i = i + 1;
    }
    false
}

impl IndexStore {
    /// The first pages that have a text in their URL.
    fn url_hits(&self, part: &str, limit: usize) -> (r: Vec<SearchResult>)
        ensures
            founds(r@) == first_n(
                plain_hits(kept(self@.pages, url_flags(self@.pages, part@))),
                limit as nat,
            ),
    {
        let ghost all = self@.pages;
        let ghost flags = url_flags(all, part@);
        let mut out: Vec<SearchResult> = Vec::new();
        let mut i: usize = 0;
        assert(founds(out@) =~= plain_hits(kept(all.take(0), flags)));
        while i < self.pages.len()
            invariant
                i <= self.pages@.len(),
                all == self@.pages,
                flags == url_flags(all, part@),
                founds(out@) == plain_hits(kept(all.take(i as int), flags)),
            decreases self.pages@.len() - i,
        {
            let ghost t = all.take(i as int + 1);
            assert(t.drop_last() =~= all.take(i as int));
            assert(t.last() == self.pages@[i as int]@);
            if contains(self.pages[i].url.as_str(), part) {
                let ghost before = out@;
                let hit: SearchResult = make_hit(&self.pages[i]);
                out.push(hit);
                assert(founds(out@) =~= founds(before).push(hit@));
                assert(plain_hits(kept(t, flags)) =~= plain_hits(kept(all.take(i as int), flags)).push(
                    hit@,
                ));
            }
            i = i + 1;
        }
        assert(all.take(all.len() as int) =~= all);
        let ghost whole = out@;
        let r: Vec<SearchResult> = take_first(out, limit);
        assert(founds(r@) =~= first_n(founds(whole), limit as nat));
        r
    }

    /// The pages that a search finds, from those that have its words: as far as there is room,
    /// those that have it in their URL come behind them.
    pub fn search(&self, by_words: Vec<SearchResult>, query: &str, limit: u32) -> (r: Vec<
        SearchResult,
    >)
        ensures
            founds(r@) == search_results(self@, founds(by_words@), query@, limit),
    {
        let ghost first = founds(by_words@);
        let room_left: usize = if by_words.len() >= limit as usize {
            0
        } else {
            limit as usize - by_words.len()
        };
        let hits: Vec<SearchResult> = self.url_hits(query, room_left);
        let mut more: Vec<SearchResult> = Vec::new();
        let ghost all = founds(hits@);
        let mut i: usize = 0;
        assert(founds(more@) =~= unseen(all.take(0), first));
        while i < hits.len()
            invariant
                i <= hits@.len(),
                all == founds(hits@),
                first == founds(by_words@),
                founds(more@) == unseen(all.take(i as int), first),
            decreases hits@.len() - i,
        {
            let ghost t = all.take(i as int + 1);
            assert(t.drop_last() =~= all.take(i as int));
            assert(t.last() == hits@[i as int]@);
            if !holds(&by_words, hits[i].url.as_str()) {
                let ghost before = more@;
                let hit: SearchResult = hits[i].duplicate();
                more.push(hit);
                assert(founds(more@) =~= founds(before).push(hit@));
            }
            i = i + 1;
        }
        assert(all.take(all.len() as int) =~= all);
        let ghost m = more@;
        let mut out: Vec<SearchResult> = by_words;
        out.append(&mut more);
        assert(founds(out@) =~= first + founds(m));
        out
    }

    /// The pages with these URLs.
    pub fn fetch_by_urls(&self, urls: &Vec<String>) -> (r: Vec<SearchResult>)
        ensures
            founds(r@) == plain_hits(
                kept(self@.pages, member_flags(self@.pages, texts(urls@))),
            ),
    {
        let ghost all = self@.pages;
        let ghost flags = member_flags(all, texts(urls@));
        let mut out: Vec<SearchResult> = Vec::new();
        let mut i: usize = 0;
        assert(founds(out@) =~= plain_hits(kept(all.take(0), flags)));
        while i < self.pages.len()
            invariant
                i <= self.pages@.len(),
                all == self@.pages,
                flags == member_flags(all, texts(urls@)),
                founds(out@) == plain_hits(kept(all.take(i as int), flags)),
            decreases self.pages@.len() - i,
        {
            let ghost t = all.take(i as int + 1);
            assert(t.drop_last() =~= all.take(i as int));
            assert(t.last() == self.pages@[i as int]@);
            if list_contains(urls, self.pages[i].url.as_str()) {
                let ghost before = out@;
                let hit: SearchResult = make_hit(&self.pages[i]);
                out.push(hit);
                assert(founds(out@) =~= founds(before).push(hit@));
                assert(plain_hits(kept(t, flags)) =~= plain_hits(kept(all.take(i as int), flags)).push(
                    hit@,
                ));
            }
            i = i + 1;
        }
        assert(all.take(all.len() as int) =~= all);
        out
    }

    /// The pages that are fetched but have no embedding: their URL, title and text.
    pub fn pages_needing_embedding(&self, limit: u32) -> (r: Vec<(String, String, String)>)
        ensures
            triples(r@) == first_n(
                triples_of(kept(self@.pages, unembedded_flags(self@.pages))),
                limit as nat,
            ),
    {
        let ghost all = self@.pages;
        let ghost flags = unembedded_flags(all);
        let mut out: Vec<(String, String, String)> = Vec::new();
        let mut i: usize = 0;
        assert(triples(out@) =~= triples_of(kept(all.take(0), flags)));
        while i < self.pages.len()
            invariant
                i <= self.pages@.len(),
                all == self@.pages,
                flags == unembedded_flags(all),
                triples(out@) == triples_of(kept(all.take(i as int), flags)),
            decreases self.pages@.len() - i,
        {
            let ghost t = all.take(i as int + 1);
            assert(t.drop_last() =~= all.take(i as int));
            assert(t.last() == self.pages@[i as int]@);
            let row: &PageRow = &self.pages[i];
            if row.fetch_status == FetchStatus::Fetched && row.embedding.is_none() {
                let ghost before = out@;
                let ghost one = (row@.url, row@.title, row@.body);
                out.push((row.url.clone(), row.title.clone(), row.body.clone()));
                assert(triples(out@) =~= triples(before).push(one));
                assert(triples_of(kept(t, flags)) =~= triples_of(kept(all.take(i as int), flags)).push(
                    one,
                ));
            }
            i = i + 1;
        }
        assert(all.take(all.len() as int) =~= all);
        let ghost whole = out@;
        let r: Vec<(String, String, String)> = take_first(out, limit as usize);
        assert(triples(r@) =~= first_n(triples(whole), limit as nat));
        r
    }
}

/// Which pages have one of these URLs.
pub open spec fn member_flags(list: Seq<Row>, urls: Seq<Seq<char>>) -> Seq<bool> {
    list.map_values(|row: Row| urls.contains(row.url))
}

/// Which pages are fetched but have no embedding.
pub open spec fn unembedded_flags(list: Seq<Row>) -> Seq<bool> {
    list.map_values(|row: Row| row.status == FetchStatus::Fetched && row.embedding is None)
}

/// What triples stand for.
pub open spec fn triples(list: Seq<(String, String, String)>) -> Seq<
    (Seq<char>, Seq<char>, Seq<char>),
> {
    list.map_values(|t: (String, String, String)| (t.0@, t.1@, t.2@))
}

/// The URLs, titles and texts of pages.
pub open spec fn triples_of(list: Seq<Row>) -> Seq<(Seq<char>, Seq<char>, Seq<char>)> {
    list.map_values(|row: Row| (row.url, row.title, row.body))
}

/// A page of the week.
#[derive(Debug)]
pub struct WeeklyEntry {
    pub url: String,
    pub title: String,
    pub snippet: String,
    pub host: String,
    pub last_visit_at: Option<String>,
}

/// What a page of the week stands for.
#[verifier::ext_equal]
pub struct Weekly {
    pub url: Seq<char>,
    pub title: Seq<char>,
    pub snippet: Seq<char>,
    pub host: Seq<char>,
    pub last_visit_at: Option<Seq<char>>,
}

impl View for WeeklyEntry {
    type V = Weekly;

    open spec fn view(&self) -> Weekly {
        Weekly {
            url: self.url@,
            title: self.title@,
            snippet: self.snippet@,
            host: self.host@,
            last_visit_at: opt(self.last_visit_at),
        }
    }
}

/// What pages of the week stand for.
pub open spec fn weeklies(list: Seq<WeeklyEntry>) -> Seq<Weekly> {
    list.map_values(|e: WeeklyEntry| e@)
}

/// A page of the index as a page of the week, with the first 300 characters of its text.
pub open spec fn weekly_of(row: Row) -> Weekly {
    Weekly {
        url: row.url,
        title: row.title,
        snippet: at_most(row.body, 300),
        host: host_of(row.url),
        last_visit_at: row.last_visit_at,
    }
}

/// A page was visited at a time or later.
pub open spec fn visited_since(row: Row, cutoff: Seq<char>) -> bool {
    row.last_visit_at matches Some(t) && !text_before(t, cutoff)
}

/// Which pages are fetched and were visited at a time or later.
pub open spec fn since_flags(list: Seq<Row>, cutoff: Seq<char>) -> Seq<bool> {
    list.map_values(|row: Row| row.status == FetchStatus::Fetched && visited_since(row, cutoff))
}

/// Which pages are fetched and were visited between two times.
pub open spec fn between_flags(list: Seq<Row>, from: Seq<char>, to: Seq<char>) -> Seq<bool> {
    list.map_values(
        |row: Row|
            row.status == FetchStatus::Fetched && visited_since(row, from) && !visited_since(
                row,
                to,
            ),
    )
}

/// The hosts of pages.
pub open spec fn hosts_of(list: Seq<Row>) -> Seq<Seq<char>> {
    list.map_values(|row: Row| host_of(row.url))
}

/// The pages of the week, the last visited first.
pub open spec fn week_of(t: Tables, cutoff: Seq<char>) -> Seq<Weekly> {
    let found = kept(t.pages, since_flags(t.pages, cutoff));
    arranged(found, latest_keys(found)).map_values(|row: Row| weekly_of(row))
}

/// How often each text of a list stands in it, each text once.
pub open spec fn tally(list: Seq<Seq<char>>) -> Seq<(Seq<char>, nat)> {
    distinct(list).map_values(|h: Seq<char>| (h, count_of(list, h)))
}

/// What counts stand for.
pub open spec fn counts(list: Seq<(String, usize)>) -> Seq<(Seq<char>, nat)> {
    list.map_values(|c: (String, usize)| (c.0@, c.1 as nat))
}

/// How often each text of a list stands in it.
fn tally_texts(list: &Vec<String>) -> (r: Vec<(String, usize)>)
    ensures
        counts(r@) == tally(texts(list@)),
{
    let once: Vec<String> = distinct_texts(list);
    let mut out: Vec<(String, usize)> = Vec::new();
    let mut i: usize = 0;
    while i < once.len()
        invariant
            i <= once@.len(),
            texts(once@) == distinct(texts(list@)),
            out@.len() == i,
            forall|k: int|
                0 <= k < i ==> (#[trigger] out@[k]).0@ == once@[k]@ && out@[k].1 == count_of(
                    texts(list@),
                    once@[k]@,
                ),
        decreases once@.len() - i,
    {
        let n: usize = count(list, once[i].as_str());
        out.push((once[i].clone(), n));
        i = i + 1;
    }
    assert forall|k: int| 0 <= k < out@.len() implies #[trigger] counts(out@)[k] == tally(
        texts(list@),
    )[k] by {
        assert(texts(once@)[k] == once@[k]@);
    }
    assert(counts(out@) =~= tally(texts(list@)));
    out
}

impl IndexStore {
    /// The pages that were fetched and visited since a time, the last visited first, and the
    /// number of pages of each host in the time before, from an earlier time on.
    pub fn weekly_pages(&self, cutoff: &str, prior_cutoff: &str) -> (r: (
        Vec<WeeklyEntry>,
        Vec<(String, usize)>,
    ))
        ensures
            weeklies(r.0@) == week_of(self@, cutoff@),
            counts(r.1@) == tally(
                hosts_of(
                    kept(self@.pages, between_flags(self@.pages, prior_cutoff@, cutoff@)),
                ),
            ),
    {
        let ghost all = self@.pages;
        let ghost flags = since_flags(all, cutoff@);
        let ghost earlier = between_flags(all, prior_cutoff@, cutoff@);
        let mut found: Vec<WeeklyEntry> = Vec::new();
        let mut keys: Vec<Key> = Vec::new();
        let mut hosts: Vec<String> = Vec::new();
        let mut i: usize = 0;
        assert(weeklies(found@) =~= kept(all.take(0), flags).map_values(|row: Row| weekly_of(row)));
        assert(ranks(keys@) =~= latest_keys(kept(all.take(0), flags)));
        assert(texts(hosts@) =~= hosts_of(kept(all.take(0), earlier)));
        while i < self.pages.len()
            invariant
                i <= self.pages@.len(),
                all == self@.pages,
                flags == since_flags(all, cutoff@),
                earlier == between_flags(all, prior_cutoff@, cutoff@),
                weeklies(found@) == kept(all.take(i as int), flags).map_values(
                    |row: Row| weekly_of(row),
                ),
                ranks(keys@) == latest_keys(kept(all.take(i as int), flags)),
                texts(hosts@) == hosts_of(kept(all.take(i as int), earlier)),
            decreases self.pages@.len() - i,
        {
            let ghost t = all.take(i as int + 1);
            assert(t.drop_last() =~= all.take(i as int));
            assert(t.last() == self.pages@[i as int]@);
            let row: &PageRow = &self.pages[i];
            let fetched: bool = row.fetch_status == FetchStatus::Fetched;
            let recent: bool = since(row, cutoff);
            let known: bool = since(row, prior_cutoff);
            if fetched && recent {
                let ghost f0 = found@;
                let ghost k0 = keys@;
                let e: WeeklyEntry = make_weekly(row);
                let k: Key = latest_key(row);
                found.push(e);
                keys.push(k);
                assert(weeklies(found@) =~= weeklies(f0).push(e@));
                assert(kept(t, flags).map_values(|row: Row| weekly_of(row)) =~= kept(
                    all.take(i as int),
                    flags,
                ).map_values(|row: Row| weekly_of(row)).push(weekly_of(row@)));
                assert(ranks(keys@) =~= ranks(k0).push(k@));
                assert(latest_keys(kept(t, flags)) =~= latest_keys(
                    kept(all.take(i as int), flags),
                ).push(k@));
            }
            if fetched && known && !recent {
                push_text(&mut hosts, host_from_url(row.url.as_str()));
                assert(hosts_of(kept(t, earlier)) =~= hosts_of(
                    kept(all.take(i as int), earlier),
                ).push(host_of(row@.url)));
            }
            i = i + 1;
        }
        assert(all.take(all.len() as int) =~= all);
        let ghost chosen = kept(all, flags);
        let ghost f1 = found@;
        assert(weeklies(f1).len() == f1.len());
        assert(ranks(keys@).len() == keys@.len());
        let sorted: Vec<WeeklyEntry> = sort_by_keys(found, &keys);
        proof {
            lemma_arranged_map(f1, latest_keys(chosen), |e: WeeklyEntry| e@);
            lemma_arranged_map(chosen, latest_keys(chosen), |row: Row| weekly_of(row));
        }
        (sorted, tally_texts(&hosts))
    }

    /// Everything that the index would lose with its tables: the fetched pages, the last visited
    /// first, and the bans in their order.
    pub fn export_all(&self, now: &str) -> (r: FullExport)
        ensures
            r.version == 1,
            r.exported_at@ == now@,
            exported(r.pages@) == backup_pages(self@),
            texts(r.ban_list@) == backup_bans(self@),
    {
        let ghost all = self@.pages;
        let ghost flags = status_flags(all, FetchStatus::Fetched);
        let mut found: Vec<ExportPage> = Vec::new();
        let mut keys: Vec<Key> = Vec::new();
        let mut i: usize = 0;
        assert(exported(found@) =~= kept(all.take(0), flags).map_values(|row: Row| export_of(row)));
        assert(ranks(keys@) =~= latest_keys(kept(all.take(0), flags)));
        while i < self.pages.len()
            invariant
                i <= self.pages@.len(),
                all == self@.pages,
                flags == status_flags(all, FetchStatus::Fetched),
                exported(found@) == kept(all.take(i as int), flags).map_values(
                    |row: Row| export_of(row),
                ),
                ranks(keys@) == latest_keys(kept(all.take(i as int), flags)),
            decreases self.pages@.len() - i,
        {
            let ghost t = all.take(i as int + 1);
            assert(t.drop_last() =~= all.take(i as int));
            assert(t.last() == self.pages@[i as int]@);
            let row: &PageRow = &self.pages[i];
            if row.fetch_status == FetchStatus::Fetched {
                let ghost f0 = found@;
                let ghost k0 = keys@;
                let e: ExportPage = make_export(row);
                let k: Key = latest_key(row);
                found.push(e);
                keys.push(k);
                assert(exported(found@) =~= exported(f0).push(e@));
                assert(kept(t, flags).map_values(|row: Row| export_of(row)) =~= kept(
                    all.take(i as int),
                    flags,
                ).map_values(|row: Row| export_of(row)).push(export_of(row@)));
                assert(ranks(keys@) =~= ranks(k0).push(k@));
                assert(latest_keys(kept(t, flags)) =~= latest_keys(
                    kept(all.take(i as int), flags),
                ).push(k@));
            }
            i = i + 1;
        }
        assert(all.take(all.len() as int) =~= all);
        let ghost chosen = kept(all, flags);
        let ghost f1 = found@;
        assert(exported(f1).len() == f1.len());
        assert(ranks(keys@).len() == keys@.len());
        let sorted: Vec<ExportPage> = sort_by_keys(found, &keys);
        proof {
            lemma_arranged_map(f1, latest_keys(chosen), |e: ExportPage| e@);
            lemma_arranged_map(chosen, latest_keys(chosen), |row: Row| export_of(row));
            assert(exported(f1) =~= f1.map_values(|e: ExportPage| e@));
            assert(exported(sorted@) =~= sorted@.map_values(|e: ExportPage| e@));
        }
        FullExport {
            version: 1,
            exported_at: now.to_owned(),
            pages: sorted,
            ban_list: sorted_texts(&self.banned_hosts),
        }
    }
}

/// The page of an export that a page of the index is written to.
pub open spec fn export_of(row: Row) -> Exported {
    Exported {
        url: row.url,
        title: row.title,
        body: row.body,
        starred: row.starred,
        first_visit_at: row.first_visit_at,
        last_visit_at: row.last_visit_at,
    }
}

/// The pages of an export: the fetched ones, the last visited first.
pub open spec fn backup_pages(t: Tables) -> Seq<Exported> {
    let found = kept(t.pages, status_flags(t.pages, FetchStatus::Fetched));
    arranged(found, latest_keys(found)).map_values(|row: Row| export_of(row))
}

/// The bans of an export, in their order.
pub open spec fn backup_bans(t: Tables) -> Seq<Seq<char>> {
    arranged(t.banned_hosts, t.banned_hosts.map_values(|h: Seq<char>| text_rank(h)))
}

/// The sorting key of a text: in the order of code points.
pub open spec fn text_rank(s: Seq<char>) -> Rank {
    Rank { major: 0, minor: 0, text: codes(s) }
}

/// A list of texts in the order of code points.
fn sorted_texts(list: &Vec<String>) -> (r: Vec<String>)
    ensures
        texts(r@) == arranged(
            texts(list@),
            texts(list@).map_values(|h: Seq<char>| text_rank(h)),
        ),
{
    let ghost wanted = texts(list@).map_values(|h: Seq<char>| text_rank(h));
    let mut copies: Vec<String> = Vec::new();
    let mut keys: Vec<Key> = Vec::new();
    let mut i: usize = 0;
    while i < list.len()
        invariant
            i <= list@.len(),
            wanted == texts(list@).map_values(|h: Seq<char>| text_rank(h)),
            copies@.len() == i,
            keys@.len() == i,
            forall|k: int| 0 <= k < i ==> (#[trigger] copies@[k])@ == list@[k]@,
            forall|k: int| 0 <= k < i ==> (#[trigger] keys@[k])@ == wanted[k],
        decreases list@.len() - i,
    {
        copies.push(list[i].clone());
        keys.push(Key::number_and_text(0, list[i].as_str()));
        i = i + 1;
    }
    assert(texts(copies@) =~= texts(list@));
    assert(ranks(keys@) =~= wanted);
    let ghost c = copies@;
    let r: Vec<String> = sort_by_keys(copies, &keys);
    proof {
        lemma_arranged_map(c, wanted, |s: String| s@);
    }
    r
}

/// Whether a page was visited at a time or later.
fn since(row: &PageRow, cutoff: &str) -> (r: bool)
    ensures
        r == visited_since(row@, cutoff@),
{
    match &row.last_visit_at {
        Some(t) => !text_precedes(t.as_str(), cutoff),
        None => false,
    }
}

/// The sorting key of a page: the last visited first.
fn latest_key(row: &PageRow) -> (r: Key)
    ensures
        r@ == latest_first(row@.last_visit_at),
{
    match &row.last_visit_at {
        Some(s) => Key::number_and_text_down(0, s.as_str()),
        None => Key::number_and_text_down(1, ""),
    }
}

/// A page of the index as a page of the week.
fn make_weekly(row: &PageRow) -> (r: WeeklyEntry)
    ensures
        r@ == weekly_of(row@),
{
    WeeklyEntry {
        url: row.url.clone(),
        title: row.title.clone(),
        snippet: take_chars(row.body.as_str(), 300).to_owned(),
        host: host_from_url(row.url.as_str()).to_owned(),
        last_visit_at: copied(&row.last_visit_at),
    }
}

/// A page of the index as a page of an export.
fn make_export(row: &PageRow) -> (r: ExportPage)
    ensures
        r@ == export_of(row@),
{
    ExportPage {
        url: row.url.clone(),
        title: row.title.clone(),
        body: row.body.clone(),
        starred: row.starred,
        first_visit_at: copied(&row.first_visit_at),
        last_visit_at: copied(&row.last_visit_at),
    }
}

/// A result shows a page of the index under its URL: with its title, or its URL where it has
/// none, its visits and its star, and without an excerpt.
pub open spec fn shows_page(hit: Found, row: Row) -> bool {
    &&& hit.url == row.url
    &&& hit.title == if row.title.len() == 0 {
        row.url
    } else {
        row.title
    }
    &&& hit.snippet.len() == 0
    &&& hit.rank == (Number { bits: 0 })
    &&& hit.first_visit_at == row.first_visit_at
    &&& hit.last_visit_at == row.last_visit_at
    &&& hit.starred == row.starred
}

/// A result shows a page of the index that has a text in its URL.
pub open spec fn has_url_hit(pages: Seq<Row>, query: Seq<char>, hit: Found) -> bool {
    exists|i: int|
        0 <= i < pages.len() && contains_text((#[trigger] pages[i]).url, query) && shows_page(
            hit,
            pages[i],
        )
}

/// How many of several pages have a text in their URL.
pub open spec fn url_matches(pages: Seq<Row>, query: Seq<char>) -> nat {
    pages.filter(|row: Row| contains_text(row.url, query)).len()
}

/// A search gives what was found by words, and behind it pages that have the query somewhere in
/// their URL. As long as there is room within the limit no such page is missed, no other page is
/// there, and none that was found by words comes again.
pub proof fn law_pages_are_found_by_their_url(
    t: Tables,
    by_words: Seq<Found>,
    query: Seq<char>,
    limit: u32,
)
    ensures
        ({
            let r = search_results(t, by_words, query, limit);
            &&& by_words.is_prefix_of(r)
            &&& r.len() <= by_words.len() || r.len() <= limit
            &&& forall|i: int|
                0 <= i < t.pages.len() && contains_text((#[trigger] t.pages[i]).url, query)
                    && url_matches(t.pages.take(i), query) + by_words.len() < limit ==> is_found(
                    r,
                    t.pages[i].url,
                )
            &&& url_matches(t.pages, query) + by_words.len() <= limit ==> forall|i: int|
                0 <= i < t.pages.len() && contains_text((#[trigger] t.pages[i]).url, query)
                    ==> is_found(r, t.pages[i].url)
            &&& forall|k: int|
                by_words.len() <= k < r.len() ==> has_url_hit(t.pages, query, #[trigger] r[k])
                    && !is_found(by_words, r[k].url)
        }),
{
    let pages = t.pages;
    let flags = url_flags(pages, query);
    let found = kept(pages, flags);
    let m = room(limit, by_words.len());
    let by_url = first_n(plain_hits(found), m);
    let more = unseen(by_url, by_words);
    let r = search_results(t, by_words, query, limit);
    lemma_unseen(by_url, by_words);
    lemma_kept_members(pages, flags);
    let p = |row: Row| contains_text(row.url, query);
    assert forall|i: int|
        0 <= i < pages.len() && contains_text((#[trigger] pages[i]).url, query) && url_matches(
            pages.take(i),
            query,
        ) + by_words.len() < limit implies is_found(r, pages[i].url) by {
        lemma_kept_at(pages, flags, i);
        let before = pages.take(i);
        assert forall|j: int| 0 <= j < before.len() implies flags[j] == p(#[trigger] before[j]) by {
            assert(before[j] == pages[j]);
        }
        lemma_kept_len(before, flags, p);
        let at = kept(before, flags).len() as int;
        assert(found[at] == pages[i]);
        assert(by_url[at].url == pages[i].url);
        lemma_found_in_both(by_words, by_url, more, at);
    }
    if url_matches(pages, query) + by_words.len() <= limit {
        assert forall|i: int|
            0 <= i < pages.len() && contains_text((#[trigger] pages[i]).url, query) implies is_found(
            r,
            pages[i].url,
        ) by {
            assert forall|j: int| 0 <= j < pages.len() implies flags[j] == p(#[trigger] pages[j]) by {}
            lemma_kept_len(pages, flags, p);
            assert(flags[i]);
            assert(found.contains(pages[i]));
            let at = choose|at: int| 0 <= at < found.len() && found[at] == pages[i];
            assert(by_url[at].url == pages[i].url);
            lemma_found_in_both(by_words, by_url, more, at);
        }
    }
    assert forall|k: int| by_words.len() <= k < r.len() implies has_url_hit(
        pages,
        query,
        #[trigger] r[k],
    ) && !is_found(by_words, r[k].url) by {
        let b = k - by_words.len();
        assert(r[k] == more[b]);
        assert(by_url.contains(more[b]));
        let at = choose|at: int| 0 <= at < by_url.len() && by_url[at] == more[b];
        assert(by_url[at] == plain_hit(found[at]));
        assert(flagged(pages, flags, found[at]));
        let i = choose|i: int| 0 <= i < pages.len() && flags[i] && #[trigger] pages[i] == found[at];
        assert(shows_page(r[k], pages[i]));
    }
}

proof fn lemma_found_in_both(by_words: Seq<Found>, by_url: Seq<Found>, more: Seq<Found>, at: int)
    requires
        0 <= at < by_url.len(),
        is_found(by_words, by_url[at].url) || more.contains(by_url[at]),
    ensures
        is_found(by_words + more, by_url[at].url),
{
    let r = by_words + more;
    if is_found(by_words, by_url[at].url) {
        let i = choose|i: int|
            0 <= i < by_words.len() && (#[trigger] by_words[i]).url == by_url[at].url;
        assert(r[i].url == by_url[at].url);
    } else {
        let b = choose|b: int| 0 <= b < more.len() && more[b] == by_url[at];
        assert(r[by_words.len() + b].url == by_url[at].url);
    }
}

proof fn lemma_unseen(list: Seq<Found>, seen: Seq<Found>)
    ensures
        unseen(list, seen).len() <= list.len(),
        forall|i: int|
            0 <= i < list.len() ==> is_found(seen, (#[trigger] list[i]).url) || unseen(
                list,
                seen,
            ).contains(list[i]),
        forall|k: int|
            0 <= k < unseen(list, seen).len() ==> list.contains(#[trigger] unseen(list, seen)[k])
                && !is_found(seen, unseen(list, seen)[k].url),
    decreases list.len(),
{
    if list.len() > 0 {
        let init = list.drop_last();
        lemma_unseen(init, seen);
        let before = unseen(init, seen);
        let now = unseen(list, seen);
        assert forall|i: int| 0 <= i < list.len() implies is_found(seen, (#[trigger] list[i]).url)
            || now.contains(list[i]) by {
            if i < init.len() {
                assert(init[i] == list[i]);
                if before.contains(list[i]) {
                    let k = choose|k: int| 0 <= k < before.len() && before[k] == list[i];
                    assert(now[k] == list[i]);
                }
            } else if !is_found(seen, list[i].url) {
                assert(now[now.len() - 1] == list[i]);
            }
        }
        assert forall|k: int| 0 <= k < now.len() implies list.contains(#[trigger] now[k])
            && !is_found(seen, now[k].url) by {
            if k < before.len() {
                assert(now[k] == before[k]);
                let i = choose|i: int| 0 <= i < init.len() && init[i] == before[k];
                assert(list[i] == now[k]);
            } else {
                assert(list[list.len() - 1] == now[k]);
            }
        }
    }
}

/// Pages are looked up by their URLs: exactly those of the index with one of the URLs are given,
/// in the order of the index.
pub proof fn law_pages_are_looked_up_by_their_url(pages: Seq<Row>, urls: Seq<Seq<char>>)
    ensures
        ({
            let r = plain_hits(kept(pages, member_flags(pages, urls)));
            &&& picked(
                pages.len(),
                r,
                |i: int| urls.contains(pages[i].url),
                |i: int| plain_hit(pages[i]),
            )
            &&& forall|i: int|
                0 <= i < pages.len() ==> shows_page(plain_hit(#[trigger] pages[i]), pages[i])
        }),
{
    lemma_kept_and_changed(
        pages,
        member_flags(pages, urls),
        |row: Row| plain_hit(row),
        |i: int| urls.contains(pages[i].url),
        |i: int| plain_hit(pages[i]),
    );
}

/// The pages that are to be embedded are the first of those that are fetched and have no
/// embedding, each with its URL, its title and its text.
pub proof fn law_unembedded_pages_are_listed(pages: Seq<Row>, limit: u32)
    ensures
        ({
            let whole = triples_of(kept(pages, unembedded_flags(pages)));
            &&& picked(
                pages.len(),
                whole,
                |i: int| pages[i].status is Fetched && pages[i].embedding is None,
                |i: int| (pages[i].url, pages[i].title, pages[i].body),
            )
            &&& is_part(first_n(whole, limit as nat), whole, 0, limit as nat)
        }),
{
    lemma_kept_and_changed(
        pages,
        unembedded_flags(pages),
        |row: Row| (row.url, row.title, row.body),
        |i: int| pages[i].status is Fetched && pages[i].embedding is None,
        |i: int| (pages[i].url, pages[i].title, pages[i].body),
    );
}

/// A page of the index as a page of the week.
pub open spec fn shows_week(entry: Weekly, row: Row) -> bool {
    &&& entry.url == row.url
    &&& entry.title == row.title
    &&& entry.host == host_of(row.url)
    &&& entry.last_visit_at == row.last_visit_at
    &&& entry.snippet.is_prefix_of(row.body)
    &&& entry.snippet.len() == if row.body.len() < 300 {
        row.body.len()
    } else {
        300
    }
}

/// The pages of the week are all that are fetched and were visited at the given time or later,
/// the last visited first. Those of the time before are all that are fetched and were visited
/// from the earlier time on, but before that; each counts for its host.
pub proof fn law_the_week_holds_every_page(
    t: Tables,
    cutoff: Seq<char>,
    prior_cutoff: Seq<char>,
)
    ensures
        sorted(
            t.pages.len(),
            week_of(t, cutoff),
            |i: int|
                t.pages[i].status is Fetched && t.pages[i].last_visit_at is Some && !text_before(
                    t.pages[i].last_visit_at->0,
                    cutoff,
                ),
            |i: int| weekly_of(t.pages[i]),
            |i: int, j: int|
                visited_before(t.pages[i].last_visit_at, t.pages[j].last_visit_at),
        ),
        forall|i: int|
            0 <= i < t.pages.len() ==> shows_week(weekly_of(#[trigger] t.pages[i]), t.pages[i]),
        picked(
            t.pages.len(),
            hosts_of(kept(t.pages, between_flags(t.pages, prior_cutoff, cutoff))),
            |i: int|
                t.pages[i].status is Fetched && t.pages[i].last_visit_at is Some && !text_before(
                    t.pages[i].last_visit_at->0,
                    prior_cutoff,
                ) && text_before(t.pages[i].last_visit_at->0, cutoff),
            |i: int| host_of(t.pages[i].url),
        ),
{
    let pages = t.pages;
    let flags = since_flags(pages, cutoff);
    let found = kept(pages, flags);
    let first = |i: int, j: int| visited_before(pages[i].last_visit_at, pages[j].last_visit_at);
    let key = |row: Row| latest_first(row.last_visit_at);
    lemma_by_visit(pages);
    lemma_kept_and_sorted(
        pages,
        flags,
        latest_keys(found),
        key,
        |row: Row| weekly_of(row),
        week_of(t, cutoff),
        |i: int|
            pages[i].status is Fetched && pages[i].last_visit_at is Some && !text_before(
                pages[i].last_visit_at->0,
                cutoff,
            ),
        |i: int| weekly_of(pages[i]),
        first,
    );
    lemma_kept_and_changed(
        pages,
        between_flags(pages, prior_cutoff, cutoff),
        |row: Row| host_of(row.url),
        |i: int|
            pages[i].status is Fetched && pages[i].last_visit_at is Some && !text_before(
                pages[i].last_visit_at->0,
                prior_cutoff,
            ) && text_before(pages[i].last_visit_at->0, cutoff),
        |i: int| host_of(pages[i].url),
    );
    assert forall|i: int| 0 <= i < pages.len() implies shows_week(
        weekly_of(#[trigger] pages[i]),
        pages[i],
    ) by {
        let s = weekly_of(pages[i]).snippet;
        assert(s =~= pages[i].body.take(s.len() as int));
    }
}

/// A backup holds every fetched page with all that is kept of it, the last visited first, and
/// every ban.
pub proof fn law_a_backup_holds_every_fetched_page(t: Tables)
    ensures
        sorted(
            t.pages.len(),
            backup_pages(t),
            |i: int| t.pages[i].status is Fetched,
            |i: int|
                Exported {
                    url: t.pages[i].url,
                    title: t.pages[i].title,
                    body: t.pages[i].body,
                    starred: t.pages[i].starred,
                    first_visit_at: t.pages[i].first_visit_at,
                    last_visit_at: t.pages[i].last_visit_at,
                },
            |i: int, j: int|
                visited_before(t.pages[i].last_visit_at, t.pages[j].last_visit_at),
        ),
        forall|h: Seq<char>| #[trigger] backup_bans(t).contains(h) <==> t.banned_hosts.contains(h),
        backup_bans(t).len() == t.banned_hosts.len(),
        forall|i: int, j: int|
            0 <= i < j < backup_bans(t).len() ==> !text_before(
                #[trigger] backup_bans(t)[j],
                #[trigger] backup_bans(t)[i],
            ),
{
    let pages = t.pages;
    let flags = status_flags(pages, FetchStatus::Fetched);
    let found = kept(pages, flags);
    lemma_by_visit(pages);
    lemma_kept_and_sorted(
        pages,
        flags,
        latest_keys(found),
        |row: Row| latest_first(row.last_visit_at),
        |row: Row| export_of(row),
        backup_pages(t),
        |i: int| pages[i].status is Fetched,
        |i: int|
            Exported {
                url: pages[i].url,
                title: pages[i].title,
                body: pages[i].body,
                starred: pages[i].starred,
                first_visit_at: pages[i].first_visit_at,
                last_visit_at: pages[i].last_visit_at,
            },
        |i: int, j: int| visited_before(pages[i].last_visit_at, pages[j].last_visit_at),
    );
    let keys = t.banned_hosts.map_values(|h: Seq<char>| text_rank(h));
    law_sorting_keeps_every_entry(t.banned_hosts, keys);
    lemma_arranged_by(t.banned_hosts, keys, |h: Seq<char>| text_rank(h));
}

/// A tally has each text of a list once, at its first place, with the number of its places.
pub proof fn law_a_tally_counts_every_text(list: Seq<Seq<char>>)
    ensures
        tally(list).len() == distinct(list).len(),
        forall|k: int|
            0 <= k < tally(list).len() ==> #[trigger] tally(list)[k] == (
                distinct(list)[k],
                count_of(list, distinct(list)[k]),
            ),
{
}

/// `places` are rising places of the index, and `hits` shows the page of each.
pub open spec fn shows_places(pages: Seq<Row>, hits: Seq<Found>, places: Seq<int>) -> bool {
    &&& places.len() == hits.len()
    &&& forall|a: int|
        0 <= a < places.len() ==> 0 <= #[trigger] places[a] < pages.len() && shows_page(
            hits[a],
            pages[places[a]],
        )
    &&& forall|a: int, b: int|
        0 <= a < b < places.len() ==> #[trigger] places[a] < #[trigger] places[b]
}

/// The pages that a search finds by their URL come in the order of the index, each once.
pub proof fn law_pages_found_by_their_url_keep_their_order(
    t: Tables,
    by_words: Seq<Found>,
    query: Seq<char>,
    limit: u32,
)
    ensures
        exists|places: Seq<int>|
            #[trigger] shows_places(
                t.pages,
                search_results(t, by_words, query, limit).skip(by_words.len() as int),
                places,
            ),
{
    let flags = url_flags(t.pages, query);
    let found = kept(t.pages, flags);
    law_kept_entries_are_the_flagged_ones(t.pages, flags);
    let chosen = |i: int| flags[i];
    let gives = |i: int| t.pages[i];
    let p = choose|p: Seq<int>| #[trigger] picks(t.pages.len(), found, chosen, gives, p);
    let by_url = first_n(plain_hits(found), room(limit, by_words.len()));
    let more = unseen(by_url, by_words);
    let q = lemma_unseen_in_order(by_url, by_words);
    let places = Seq::new(more.len(), |a: int| p[q[a]]);
    assert forall|a: int| 0 <= a < places.len() implies 0 <= #[trigger] places[a] < t.pages.len()
        && shows_page(more[a], t.pages[places[a]]) by {
        assert(0 <= q[a] < by_url.len());
        assert(by_url[q[a]] == plain_hit(found[q[a]]));
        assert(0 <= p[q[a]] < t.pages.len());
    }
    assert forall|a: int, b: int| 0 <= a < b < places.len() implies #[trigger] places[a]
        < #[trigger] places[b] by {
        assert(q[a] < q[b]);
        assert(0 <= q[a] && q[b] < p.len());
        assert(p[q[a]] < p[q[b]]);
    }
    assert(search_results(t, by_words, query, limit).skip(by_words.len() as int) =~= more);
    assert(shows_places(t.pages, more, places));
}

proof fn lemma_unseen_in_order(list: Seq<Found>, seen: Seq<Found>) -> (q: Seq<int>)
    ensures
        q.len() == unseen(list, seen).len(),
        forall|a: int|
            0 <= a < q.len() ==> 0 <= #[trigger] q[a] < list.len() && unseen(list, seen)[a]
                == list[q[a]],
        forall|a: int, b: int| 0 <= a < b < q.len() ==> #[trigger] q[a] < #[trigger] q[b],
    decreases list.len(),
{
    if list.len() == 0 {
        Seq::empty()
    } else {
        let init = list.drop_last();
        let before = lemma_unseen_in_order(init, seen);
        if is_found(seen, list.last().url) {
            before
        } else {
            before.push(list.len() - 1)
        }
    }
}

} // verus!
