//! What is read from the index.

use vstd::prelude::*;
use vstd::string::*;

use crate::index::store::{place_of, has_page, FetchStatus, IndexStore, PageRow, Row, Tables};
use crate::json::{Json, Tree};
use crate::lists::{lemma_picked_none, lemma_picked_one_more, picked, push_text};
use crate::order::{
    arranged, codes, codes_down, first_n, is_part, kept, law_codes_down_reverse_the_order,
    lemma_arranged_by, lemma_arranged_map, lemma_kept_and_changed, lemma_kept_and_sorted,
    lemma_seq_before_total, rank_before, ranks, sort_by_keys, sorted, take_first, take_window,
    text_before, window, Key, Rank,
};
use crate::text::{
    ascii_lowered, contains, contains_text, opt, pairs, same_text, texts, to_ascii_lower,
};

verus! {

/// A page in a list.
#[derive(Debug)]
pub struct PageEntry {
    pub url: String,
    pub title: String,
    pub fetch_status: FetchStatus,
    pub starred: bool,
}

/// What a page in a list stands for.
#[verifier::ext_equal]
pub struct Entry {
    pub url: Seq<char>,
    pub title: Seq<char>,
    pub status: FetchStatus,
    pub starred: bool,
}

impl View for PageEntry {
    type V = Entry;

    open spec fn view(&self) -> Entry {
        Entry {
            url: self.url@,
            title: self.title@,
            status: self.fetch_status,
            starred: self.starred,
        }
    }
}

/// What the pages in a list stand for.
pub open spec fn entries(list: Seq<PageEntry>) -> Seq<Entry> {
    list.map_values(|e: PageEntry| e@)
}

/// A page of the index as it stands in a list.
pub open spec fn entry_of(row: Row) -> Entry {
    Entry { url: row.url, title: row.title, status: row.status, starred: row.starred }
}

/// Pages of the index as they stand in a list.
pub open spec fn entries_of(list: Seq<Row>) -> Seq<Entry> {
    list.map_values(|row: Row| entry_of(row))
}

/// A page of the index as it stands in a list.
fn make_entry(row: &PageRow) -> (r: PageEntry)
    ensures
        r@ == entry_of(row@),
{
    PageEntry {
        url: row.url.clone(),
        title: row.title.clone(),
        fetch_status: row.fetch_status,
        starred: row.starred,
    }
}

/// The sorting key of a time that may be missing: the latest first, and missing ones last.
pub open spec fn latest_first(t: Option<Seq<char>>) -> Rank {
    match t {
        Some(s) => Rank { major: 0, minor: 0, text: codes_down(s) },
        None => Rank { major: 1, minor: 0, text: codes_down(""@) },
    }
}

/// The sorting keys of pages: the last visited first.
pub open spec fn latest_keys(list: Seq<Row>) -> Seq<Rank> {
    list.map_values(|row: Row| latest_first(row.last_visit_at))
}

/// The sorting keys of pages: in the order of their titles.
pub open spec fn title_keys(list: Seq<Row>) -> Seq<Rank> {
    list.map_values(|row: Row| Rank { major: 0, minor: 0, text: codes(row.title) })
}

/// The sorting key of a time that may be missing.
fn latest_first_key(t: &Option<String>) -> (r: Key)
    ensures
        r@ == latest_first(opt(*t)),
{
    match t {
        Some(s) => Key::number_and_text_down(0, s.as_str()),
        None => Key::number_and_text_down(1, ""),
    }
}

/// A page is listed under a filter: its URL or its title holds it, in whatever case of ASCII
/// letters. An empty filter, or none, lists every page.
pub open spec fn passes(row: Row, filter: Option<Seq<char>>) -> bool {
    match filter {
        Some(f) => f.len() == 0 || contains_text(ascii_lowered(row.url), ascii_lowered(f))
            || contains_text(ascii_lowered(row.title), ascii_lowered(f)),
        None => true,
    }
}

/// Which pages a filter lists.
pub open spec fn filter_flags(list: Seq<Row>, filter: Option<Seq<char>>) -> Seq<bool> {
    list.map_values(|row: Row| passes(row, filter))
}

/// Which pages are starred.
pub open spec fn star_flags(list: Seq<Row>) -> Seq<bool> {
    list.map_values(|row: Row| row.starred)
}

/// Which pages have a status.
pub open spec fn status_flags(list: Seq<Row>, status: FetchStatus) -> Seq<bool> {
    list.map_values(|row: Row| row.status == status)
}

/// The pages of a list.
pub open spec fn listed(
    t: Tables,
    limit: u32,
    offset: u32,
    filter: Option<Seq<char>>,
) -> Seq<Entry> {
    let found = kept(t.pages, filter_flags(t.pages, filter));
    window(entries_of(arranged(found, latest_keys(found))), offset as nat, limit as nat)
}

/// The starred pages of a list.
pub open spec fn listed_starred(t: Tables, limit: u32) -> Seq<Entry> {
    let found = kept(t.pages, star_flags(t.pages));
    first_n(entries_of(arranged(found, title_keys(found))), limit as nat)
}

impl IndexStore {
    /// The pages of the index, the last visited first, from place `offset` on. With a filter,
    /// those whose URL or title holds it.
    pub fn list_pages(&self, limit: u32, offset: u32, filter: Option<&str>) -> (r: Vec<PageEntry>)
        ensures
            entries(r@) == listed(
                self@,
                limit,
                offset,
                match filter {
                    Some(f) => Some(f@),
                    None => None,
                },
            ),
    {
        let ghost wanted: Option<Seq<char>> = match filter {
            Some(f) => Some(f@),
            None => None,
        };
        let lower: Option<String> = match filter {
            Some(f) => {
                if f.unicode_len() == 0 {
                    None
                } else {
                    Some(to_ascii_lower(f))
                }
            },
            None => None,
        };
        let ghost all = self@.pages;
        let ghost flags = filter_flags(all, wanted);
        let mut found: Vec<PageEntry> = Vec::new();
        let mut keys: Vec<Key> = Vec::new();
        let mut i: usize = 0;
        assert(entries(found@) =~= entries_of(kept(all.take(0), flags)));
        assert(ranks(keys@) =~= latest_keys(kept(all.take(0), flags)));
        while i < self.pages.len()
            invariant
                i <= self.pages@.len(),
                all == self@.pages,
                flags == filter_flags(all, wanted),
                match wanted {
                    Some(f) => if f.len() == 0 {
                        lower is None
                    } else {
                        opt(lower) == Some(ascii_lowered(f))
                    },
                    None => lower is None,
                },
                entries(found@) == entries_of(kept(all.take(i as int), flags)),
                ranks(keys@) == latest_keys(kept(all.take(i as int), flags)),
            decreases self.pages@.len() - i,
        {
            let ghost t = all.take(i as int + 1);
            assert(t.drop_last() =~= all.take(i as int));
            assert(t.last() == self.pages@[i as int]@);
            let row: &PageRow = &self.pages[i];
            let take: bool = match &lower {
                Some(f) => contains(to_ascii_lower(row.url.as_str()).as_str(), f.as_str())
                    || contains(to_ascii_lower(row.title.as_str()).as_str(), f.as_str()),
                None => true,
            };
            assert(take == flags[i as int]);
            if take {
                let ghost f0 = found@;
                let ghost k0 = keys@;
                let e: PageEntry = make_entry(row);
                let k: Key = latest_first_key(&row.last_visit_at);
                found.push(e);
                keys.push(k);
                assert(entries(found@) =~= entries(f0).push(e@));
                assert(entries_of(kept(t, flags)) =~= entries_of(kept(all.take(i as int), flags)).push(
                    entry_of(row@),
                ));
                assert(ranks(keys@) =~= ranks(k0).push(k@));
                assert(latest_keys(kept(t, flags)) =~= latest_keys(
                    kept(all.take(i as int), flags),
                ).push(latest_first(row@.last_visit_at)));
            }
            i = i + 1;
        }
        assert(all.take(all.len() as int) =~= all);
        let ghost chosen = kept(all, flags);
        assert(entries(found@).len() == found@.len());
        assert(ranks(keys@).len() == keys@.len());
        let ghost f1 = found@;
        let sorted: Vec<PageEntry> = sort_by_keys(found, &keys);
        proof {
            lemma_arranged_map(f1, latest_keys(chosen), |e: PageEntry| e@);
            lemma_arranged_map(chosen, latest_keys(chosen), |row: Row| entry_of(row));
        }
        assert(entries(sorted@) == entries_of(arranged(chosen, latest_keys(chosen))));
        let ghost whole = sorted@;
        let r: Vec<PageEntry> = take_window(sorted, offset as usize, limit as usize);
        assert(entries(r@) =~= window(entries(whole), offset as nat, limit as nat));
        r
    }

    /// The starred pages, in the order of their titles.
    pub fn get_starred(&self, limit: u32) -> (r: Vec<PageEntry>)
        ensures
            entries(r@) == listed_starred(self@, limit),
    {
        let ghost all = self@.pages;
        let ghost flags = star_flags(all);
        let mut found: Vec<PageEntry> = Vec::new();
        let mut keys: Vec<Key> = Vec::new();
        let mut i: usize = 0;
        assert(entries(found@) =~= entries_of(kept(all.take(0), flags)));
        assert(ranks(keys@) =~= title_keys(kept(all.take(0), flags)));
        while i < self.pages.len()
            invariant
                i <= self.pages@.len(),
                all == self@.pages,
                flags == star_flags(all),
                entries(found@) == entries_of(kept(all.take(i as int), flags)),
                ranks(keys@) == title_keys(kept(all.take(i as int), flags)),
            decreases self.pages@.len() - i,
        {
            let ghost t = all.take(i as int + 1);
            assert(t.drop_last() =~= all.take(i as int));
            assert(t.last() == self.pages@[i as int]@);
            let row: &PageRow = &self.pages[i];
            if row.starred {
                let ghost f0 = found@;
                let ghost k0 = keys@;
                let e: PageEntry = make_entry(row);
                let k: Key = Key::number_and_text(0, row.title.as_str());
                found.push(e);
                keys.push(k);
                assert(entries(found@) =~= entries(f0).push(e@));
                assert(entries_of(kept(t, flags)) =~= entries_of(kept(all.take(i as int), flags)).push(
                    entry_of(row@),
                ));
                assert(ranks(keys@) =~= ranks(k0).push(k@));
                assert(title_keys(kept(t, flags)) =~= title_keys(
                    kept(all.take(i as int), flags),
                ).push(k@));
            }
            i = i + 1;
        }
        assert(all.take(all.len() as int) =~= all);
        let ghost chosen = kept(all, flags);
        assert(entries(found@).len() == found@.len());
        assert(ranks(keys@).len() == keys@.len());
        let ghost f1 = found@;
        let sorted: Vec<PageEntry> = sort_by_keys(found, &keys);
        proof {
            lemma_arranged_map(f1, title_keys(chosen), |e: PageEntry| e@);
            lemma_arranged_map(chosen, title_keys(chosen), |row: Row| entry_of(row));
        }
        assert(entries(sorted@) == entries_of(arranged(chosen, title_keys(chosen))));
        let ghost whole = sorted@;
        let r: Vec<PageEntry> = take_first(sorted, limit as usize);
        assert(entries(r@) =~= first_n(entries(whole), limit as nat));
        r
    }
}

/// How many pages have a status.
pub open spec fn count_status(list: Seq<Row>, status: FetchStatus) -> nat
    decreases list.len(),
{
    if list.len() == 0 {
        0
    } else {
        count_status(list.drop_last(), status) + if list.last().status == status {
            1nat
        } else {
            0
        }
    }
}

/// How many pages have an embedding.
pub open spec fn count_embedded(list: Seq<Row>) -> nat
    decreases list.len(),
{
    if list.len() == 0 {
        0
    } else {
        count_embedded(list.drop_last()) + if list.last().embedding is Some {
            1nat
        } else {
            0
        }
    }
}

/// The size of the index.
#[derive(Debug, Clone, Copy, PartialEq, Eq, Structural)]
pub struct Stats {
    pub total_pages: u64,
    pub fetched: u64,
    pub pending: u64,
    pub embedded: u64,
    pub auth_wall: u64,
    pub skipped: u64,
    pub favicons: u64,
}

/// The place of the icon of a host, and the end of the list where there is none.
pub open spec fn icon_place(list: Seq<crate::index::store::Icon>, host: Seq<char>) -> int
    decreases list.len(),
{
    if list.len() == 0 {
        0
    } else if list[0].host == host {
        0
    } else {
        1 + icon_place(list.drop_first(), host)
    }
}

/// What the place of an icon means.
proof fn lemma_icon_place(list: Seq<crate::index::store::Icon>, host: Seq<char>, at: int)
    requires
        0 <= at <= list.len(),
        at < list.len() ==> list[at].host == host,
        forall|k: int| 0 <= k < at ==> (#[trigger] list[k]).host != host,
    ensures
        icon_place(list, host) == at,
    decreases list.len(),
{
    if list.len() > 0 && at > 0 {
        let rest = list.drop_first();
        assert(list[0].host != host);
        assert forall|k: int| 0 <= k < at - 1 implies (#[trigger] rest[k]).host != host by {
            assert(rest[k] == list[k + 1]);
        }
        lemma_icon_place(rest, host, at - 1);
    }
}

/// The tables with the icon of a host stored, in place of the one it had.
pub open spec fn icon_stored(
    t: Tables,
    host: Seq<char>,
    mime: Seq<char>,
    data: Seq<u8>,
    now: Seq<char>,
) -> Tables {
    let icon = crate::index::store::Icon { host, mime, data, fetched_at: Some(now) };
    let at = icon_place(t.favicons, host);
    Tables {
        favicons: if at < t.favicons.len() {
            t.favicons.update(at, icon)
        } else {
            t.favicons.push(icon)
        },
        ..t
    }
}

/// The value under a key, where there is one.
pub open spec fn value_of(list: Seq<(Seq<char>, Seq<char>)>, key: Seq<char>) -> Option<Seq<char>>
    decreases list.len(),
{
    if list.len() == 0 {
        None
    } else if list[0].0 == key {
        Some(list[0].1)
    } else {
        value_of(list.drop_first(), key)
    }
}

/// A list with the value under a key set.
pub open spec fn value_set(
    list: Seq<(Seq<char>, Seq<char>)>,
    key: Seq<char>,
    value: Seq<char>,
) -> Seq<(Seq<char>, Seq<char>)>
    decreases list.len(),
{
    if list.len() == 0 {
        seq![(key, value)]
    } else if list[0].0 == key {
        seq![(key, value)] + list.drop_first()
    } else {
        seq![list[0]] + value_set(list.drop_first(), key, value)
    }
}

/// A value that is set is read again, and the other values stay.
pub proof fn law_a_set_value_is_read(
    list: Seq<(Seq<char>, Seq<char>)>,
    key: Seq<char>,
    value: Seq<char>,
    other: Seq<char>,
)
    ensures
        value_of(value_set(list, key, value), key) == Some(value),
        other != key ==> value_of(value_set(list, key, value), other) == value_of(list, other),
    decreases list.len(),
{
    let now = value_set(list, key, value);
    if list.len() == 0 {
        assert(now[0] == (key, value));
        assert(now.drop_first() =~= Seq::empty());
        assert(value_of(now.drop_first(), other) is None);
    } else if list[0].0 == key {
        assert(now[0] == (key, value));
        assert(now.drop_first() =~= list.drop_first());
    } else {
        law_a_set_value_is_read(list.drop_first(), key, value, other);
        assert(now[0] == list[0]);
        assert(now.drop_first() =~= value_set(list.drop_first(), key, value));
    }
}

/// A list without a text.
pub open spec fn without_text(list: Seq<Seq<char>>, s: Seq<char>) -> Seq<Seq<char>>
    decreases list.len(),
{
    if list.len() == 0 {
        Seq::empty()
    } else if list.last() == s {
        without_text(list.drop_last(), s)
    } else {
        without_text(list.drop_last(), s).push(list.last())
    }
}

/// The texts of pages, in the order in which they are asked for; pages that are not there are
/// passed over.
pub open spec fn bodies_for(pages: Seq<Row>, urls: Seq<Seq<char>>) -> Seq<(Seq<char>, Seq<char>)>
    decreases urls.len(),
{
    if urls.len() == 0 {
        Seq::empty()
    } else {
        let before = bodies_for(pages, urls.drop_last());
        let at = place_of(pages, urls.last());
        if at < pages.len() {
            before.push((urls.last(), pages[at].body))
        } else {
            before
        }
    }
}

/// A value that may be missing, as a tree.
pub open spec fn opt_tree(s: Option<Seq<char>>) -> Tree {
    match s {
        Some(s) => Tree::Text(s),
        None => Tree::Null,
    }
}

/// A page as a tree.
pub open spec fn page_tree(row: Row) -> Tree {
    Tree::empty().with("url"@, Tree::Text(row.url)).with("title"@, Tree::Text(row.title)).with(
        "body"@,
        Tree::Text(row.body),
    ).with("fetch_status"@, Tree::Text(row.status.name())).with(
        "starred"@,
        Tree::Bool(row.starred),
    ).with("first_visit_at"@, opt_tree(row.first_visit_at)).with(
        "last_visit_at"@,
        opt_tree(row.last_visit_at),
    )
}

/// A value that may be missing, as a tree.
fn opt_json(s: &Option<String>) -> (r: Json)
    ensures
        r.tree() == opt_tree(opt(*s)),
{
    match s {
        Some(s) => Json::of(s.as_str()),
        None => Json::Null,
    }
}

/// The URLs of pages.
pub open spec fn urls_in(list: Seq<Row>) -> Seq<Seq<char>> {
    list.map_values(|row: Row| row.url)
}

impl IndexStore {
    /// The size of the index.
    pub fn stats(&self) -> (r: Stats)
        ensures
            r.total_pages == self@.pages.len(),
            r.fetched == count_status(self@.pages, FetchStatus::Fetched),
            r.pending == count_status(self@.pages, FetchStatus::Pending),
            r.embedded == count_embedded(self@.pages),
            r.auth_wall == count_status(self@.pages, FetchStatus::AuthWall),
            r.skipped == count_status(self@.pages, FetchStatus::Skip),
            r.favicons == self@.favicons.len(),
    {
        let ghost all = self@.pages;
        let mut s = Stats {
            total_pages: self.pages.len() as u64,
            fetched: 0,
            pending: 0,
            embedded: 0,
            auth_wall: 0,
            skipped: 0,
            favicons: self.favicons.len() as u64,
        };
        let mut i: usize = 0;
        while i < self.pages.len()
            invariant
                i <= self.pages@.len(),
                all == self@.pages,
                s.total_pages == self.pages@.len(),
                s.favicons == self.favicons@.len(),
                s.fetched <= i,
                s.pending <= i,
                s.embedded <= i,
                s.auth_wall <= i,
                s.skipped <= i,
                s.fetched == count_status(all.take(i as int), FetchStatus::Fetched),
                s.pending == count_status(all.take(i as int), FetchStatus::Pending),
                s.embedded == count_embedded(all.take(i as int)),
                s.auth_wall == count_status(all.take(i as int), FetchStatus::AuthWall),
                s.skipped == count_status(all.take(i as int), FetchStatus::Skip),
            decreases self.pages@.len() - i,
        {
            let ghost t = all.take(i as int + 1);
            assert(t.drop_last() =~= all.take(i as int));
            assert(t.last() == self.pages@[i as int]@);
            match self.pages[i].fetch_status {
                FetchStatus::Fetched => {
                    s.fetched = s.fetched + 1;
                },
                FetchStatus::Pending => {
                    s.pending = s.pending + 1;
                },
                FetchStatus::AuthWall => {
                    s.auth_wall = s.auth_wall + 1;
                },
                FetchStatus::Skip => {
                    s.skipped = s.skipped + 1;
                },
                FetchStatus::Error => {},
            }
            if self.pages[i].embedding.is_some() {
                s.embedded = s.embedded + 1;
            }
            i = i + 1;
        }
        assert(all.take(all.len() as int) =~= all);
        s
    }

    /// The place of the icon of a host.
    fn find_icon(&self, host: &str) -> (r: Option<usize>)
        ensures
            match r {
                Some(i) => i < self.favicons@.len() && i == icon_place(self@.favicons, host@)
                    && self.favicons@[i as int].host@ == host@,
                None => icon_place(self@.favicons, host@) == self@.favicons.len(),
            },
    {
        let ghost all = self@.favicons;
        let mut i: usize = 0;
        while i < self.favicons.len()
            invariant
                i <= self.favicons@.len(),
                all == self@.favicons,
                forall|k: int| 0 <= k < i ==> (#[trigger] all[k]).host != host@,
            decreases self.favicons@.len() - i,
        {
            if same_text(self.favicons[i].host.as_str(), host) {
                proof {
                    lemma_icon_place(all, host@, i as int);
                }
                return Some(i);
            }
            i = i + 1;
        }
        proof {
            lemma_icon_place(all, host@, i as int);
        }
        None
    }

    /// Whether the index has an icon of a host.
    pub fn has_favicon(&self, host: &str) -> (r: bool)
        ensures
            r == (icon_place(self@.favicons, host@) < self@.favicons.len()),
    {
        self.find_icon(host).is_some()
    }

    /// Stores the icon of a host, in place of the one it had.
    pub fn store_favicon(&mut self, host: &str, mime: &str, data: &Vec<u8>, now: &str)
        ensures
            final(self)@ == icon_stored(old(self)@, host@, mime@, data@, now@),
    {
        let bytes: Vec<u8> = data.clone();
        assert(bytes@ =~= data@);
        let icon = crate::index::store::IconRow {
            host: host.to_owned(),
            mime: mime.to_owned(),
            data: bytes,
            fetched_at: Some(now.to_owned()),
        };
        match self.find_icon(host) {
            Some(at) => {
                self.favicons[at] = icon;
                assert(self@.favicons =~= old(self)@.favicons.update(at as int, icon@));
            },
            None => {
                self.favicons.push(icon);
                assert(self@.favicons =~= old(self)@.favicons.push(icon@));
            },
        }
        assert(self@ =~= icon_stored(old(self)@, host@, mime@, data@, now@));
    }

    /// The icon of a host: its type and its bytes.
    pub fn get_favicon(&self, host: &str) -> (r: Option<(String, Vec<u8>)>)
        ensures
            ({
                let at = icon_place(self@.favicons, host@);
                match r {
                    Some((mime, data)) => at < self@.favicons.len() && mime@
                        == self@.favicons[at].mime && data@ == self@.favicons[at].data,
                    None => at == self@.favicons.len(),
                }
            }),
    {
        match self.find_icon(host) {
            Some(at) => {
                let data: Vec<u8> = self.favicons[at].data.clone();
                assert(data@ =~= self.favicons@[at as int].data@);
                Some((self.favicons[at].mime.clone(), data))
            },
            None => None,
        }
    }

    /// The texts of pages.
    pub fn get_bodies(&self, urls: &Vec<String>) -> (r: Vec<(String, String)>)
        ensures
            pairs(r@) == bodies_for(self@.pages, texts(urls@)),
    {
        let ghost all = texts(urls@);
        let mut out: Vec<(String, String)> = Vec::new();
        let mut i: usize = 0;
        assert(pairs(out@) =~= bodies_for(self@.pages, all.take(0)));
        while i < urls.len()
            invariant
                i <= urls@.len(),
                all == texts(urls@),
                pairs(out@) == bodies_for(self@.pages, all.take(i as int)),
            decreases urls@.len() - i,
        {
            let ghost t = all.take(i as int + 1);
            assert(t.drop_last() =~= all.take(i as int));
            assert(t.last() == urls@[i as int]@);
            if let Some(at) = self.find(urls[i].as_str()) {
                let ghost before = out@;
                let ghost entry = (urls@[i as int]@, self@.pages[at as int].body);
                out.push((urls[i].clone(), self.pages[at].body.clone()));
                assert(pairs(out@) =~= pairs(before).push(entry));
            }
            i = i + 1;
        }
        assert(all.take(all.len() as int) =~= all);
        out
    }

    /// The banned hosts.
    pub fn get_banned_hosts(&self) -> (r: Vec<String>)
        ensures
            texts(r@) == self@.banned_hosts,
    {
        copy_texts(&self.banned_hosts)
    }

    /// Ignores the clusters of a domain.
    pub fn add_cluster_ignored_domain(&mut self, domain: &str)
        ensures
            final(self)@ == (Tables {
                cluster_ignored_domains: crate::index::store::with_text(
                    old(self)@.cluster_ignored_domains,
                    domain@,
                ),
                ..old(self)@
            }),
    {
        crate::lists::push_distinct(&mut self.cluster_ignored_domains, domain);
    }

    /// The domains whose clusters are ignored.
    pub fn get_cluster_ignored_domains(&self) -> (r: Vec<String>)
        ensures
            texts(r@) == self@.cluster_ignored_domains,
    {
        copy_texts(&self.cluster_ignored_domains)
    }

    /// Ignores the clusters of a domain no more.
    pub fn remove_cluster_ignored_domain(&mut self, domain: &str)
        ensures
            final(self)@ == (Tables {
                cluster_ignored_domains: without_text(
                    old(self)@.cluster_ignored_domains,
                    domain@,
                ),
                ..old(self)@
            }),
    {
        let ghost all = self@.cluster_ignored_domains;
        let mut out: Vec<String> = Vec::new();
        let mut i: usize = 0;
        assert(texts(out@) =~= without_text(all.take(0), domain@));
        while i < self.cluster_ignored_domains.len()
            invariant
                i <= self.cluster_ignored_domains@.len(),
                *self == *old(self),
                all == self@.cluster_ignored_domains,
                texts(out@) == without_text(all.take(i as int), domain@),
            decreases self.cluster_ignored_domains@.len() - i,
        {
            let ghost t = all.take(i as int + 1);
            assert(t.drop_last() =~= all.take(i as int));
            assert(t.last() == self.cluster_ignored_domains@[i as int]@);
            if !same_text(self.cluster_ignored_domains[i].as_str(), domain) {
                push_text(&mut out, self.cluster_ignored_domains[i].as_str());
            }
            i = i + 1;
        }
        assert(all.take(all.len() as int) =~= all);
        self.cluster_ignored_domains = out;
    }

    /// The value under a key.
    pub fn get_meta(&self, key: &str) -> (r: Option<String>)
        ensures
            opt(r) == value_of(self@.meta, key@),
    {
        let ghost all = self@.meta;
        let mut i: usize = 0;
        assert(all.skip(0) =~= all);
        while i < self.meta.len()
            invariant
                i <= self.meta@.len(),
                all == self@.meta,
                value_of(all, key@) == value_of(all.skip(i as int), key@),
            decreases self.meta@.len() - i,
        {
            let ghost rest = all.skip(i as int);
            assert(rest[0] == (self.meta@[i as int].0@, self.meta@[i as int].1@));
            assert(rest.drop_first() =~= all.skip(i as int + 1));
            if same_text(self.meta[i].0.as_str(), key) {
                return Some(self.meta[i].1.clone());
            }
            i = i + 1;
        }
        None
    }

    /// Sets the value under a key.
    pub fn set_meta(&mut self, key: &str, value: &str)
        ensures
            final(self)@ == (Tables {
                meta: value_set(old(self)@.meta, key@, value@),
                ..old(self)@
            }),
    {
        set_pair(&mut self.meta, key, value);
    }

    /// A page with all that is known of it.
    pub fn get_page(&self, url: &str) -> (r: Option<Json>)
        ensures
            match r {
                Some(j) => has_page(self@.pages, url@) && j.tree() == page_tree(
                    self@.pages[place_of(self@.pages, url@)],
                ),
                None => !has_page(self@.pages, url@),
            },
    {
        match self.find(url) {
            Some(at) => {
                let row: &PageRow = &self.pages[at];
                assert(row@ == self@.pages[at as int]);
                Some(
                    Json::empty().with("url", Json::of(row.url.as_str())).with(
                        "title",
                        Json::of(row.title.as_str()),
                    ).with("body", Json::of(row.body.as_str())).with(
                        "fetch_status",
                        Json::of(row.fetch_status.as_str()),
                    ).with("starred", Json::Bool(row.starred)).with(
                        "first_visit_at",
                        opt_json(&row.first_visit_at),
                    ).with("last_visit_at", opt_json(&row.last_visit_at)),
                )
            },
            None => None,
        }
    }

    /// The URLs of pages that are to be fetched.
    pub fn urls_needing_fetch(&self, limit: u32) -> (r: Vec<String>)
        ensures
            texts(r@) == first_n(
                urls_in(kept(self@.pages, status_flags(self@.pages, FetchStatus::Pending))),
                limit as nat,
            ),
    {
        let ghost all = self@.pages;
        let ghost flags = status_flags(all, FetchStatus::Pending);
        let mut out: Vec<String> = Vec::new();
        let mut i: usize = 0;
        assert(texts(out@) =~= urls_in(kept(all.take(0), flags)));
        while i < self.pages.len()
            invariant
                i <= self.pages@.len(),
                all == self@.pages,
                flags == status_flags(all, FetchStatus::Pending),
                texts(out@) == urls_in(kept(all.take(i as int), flags)),
            decreases self.pages@.len() - i,
        {
            let ghost t = all.take(i as int + 1);
            assert(t.drop_last() =~= all.take(i as int));
            assert(t.last() == self.pages@[i as int]@);
            if self.pages[i].fetch_status == FetchStatus::Pending {
                push_text(&mut out, self.pages[i].url.as_str());
                assert(urls_in(kept(t, flags)) =~= urls_in(kept(all.take(i as int), flags)).push(
                    t.last().url,
                ));
            }
            i = i + 1;
        }
        assert(all.take(all.len() as int) =~= all);
        let ghost whole = out@;
        let r: Vec<String> = take_first(out, limit as usize);
        assert(texts(r@) =~= first_n(texts(whole), limit as nat));
        r
    }
}

/// Sets the value under a key.
fn set_pair(list: &mut Vec<(String, String)>, key: &str, value: &str)
    ensures
        pairs(final(list)@) == value_set(pairs(old(list)@), key@, value@),
{
    let ghost all = pairs(list@);
    let mut i: usize = 0;
    assert(all.skip(0) =~= all);
    assert(all.take(0) + value_set(all.skip(0), key@, value@) =~= value_set(all, key@, value@));
    while i < list.len()
        invariant
            i <= list.len(),
            *list == *old(list),
            all == pairs(list@),
            all.take(i as int) + value_set(all.skip(i as int), key@, value@) == value_set(
                all,
                key@,
                value@,
            ),
        decreases list.len() - i,
    {
        let ghost rest = all.skip(i as int);
        assert(rest[0] == (list@[i as int].0@, list@[i as int].1@));
        if same_text(list[i].0.as_str(), key) {
            list[i] = (key.to_owned(), value.to_owned());
            assert(pairs(list@) =~= all.take(i as int) + (seq![(key@, value@)] + rest.drop_first()));
            return;
        }
        assert(rest.drop_first() =~= all.skip(i as int + 1));
        assert(all.take(i as int) + (seq![rest[0]] + value_set(rest.drop_first(), key@, value@))
            =~= all.take(i as int + 1) + value_set(all.skip(i as int + 1), key@, value@));
        i = i + 1;
    }
    assert(all.skip(i as int) =~= Seq::empty());
    list.push((key.to_owned(), value.to_owned()));
    assert(pairs(list@) =~= all.take(i as int) + seq![(key@, value@)]);
}

/// A copy of a list of texts.
fn copy_texts(list: &Vec<String>) -> (r: Vec<String>)
    ensures
        texts(r@) == texts(list@),
{
    let mut out: Vec<String> = Vec::new();
    let mut i: usize = 0;
    while i < list.len()
        invariant
            i <= list.len(),
            out@.len() == i,
            forall|k: int| 0 <= k < i ==> (#[trigger] out@[k])@ == list@[k]@,
        decreases list.len() - i,
    {
        out.push(list[i].clone());
        i = i + 1;
    }
    assert(texts(out@) =~= texts(list@));
    out
}

/// A last visit stands before another in a list of pages: it is later, and pages without a visit
/// come last.
pub open spec fn visited_before(a: Option<Seq<char>>, b: Option<Seq<char>>) -> bool {
    match (a, b) {
        (Some(s), Some(t)) => text_before(t, s),
        (Some(_), None) => true,
        _ => false,
    }
}

/// The pages of the index come the last visited first, those without a visit last.
pub proof fn law_pages_come_by_last_visit(found: Seq<Row>)
    ensures
        forall|i: int, j: int|
            0 <= i < j < found.len() ==> !visited_before(
                (#[trigger] arranged(found, latest_keys(found))[j]).last_visit_at,
                (#[trigger] arranged(found, latest_keys(found))[i]).last_visit_at,
            ),
{
    lemma_arranged_by(found, latest_keys(found), |row: Row| latest_first(row.last_visit_at));
    let sorted = arranged(found, latest_keys(found));
    assert forall|i: int, j: int| 0 <= i < j < found.len() implies !visited_before(
        (#[trigger] sorted[j]).last_visit_at,
        (#[trigger] sorted[i]).last_visit_at,
    ) by {
        if let (Some(s), Some(t)) = (sorted[j].last_visit_at, sorted[i].last_visit_at) {
            law_codes_down_reverse_the_order(s, t);
        }
    }
}

/// Starred pages come in the order of their titles.
pub proof fn law_starred_pages_come_by_title(found: Seq<Row>)
    ensures
        forall|i: int, j: int|
            0 <= i < j < found.len() ==> !text_before(
                (#[trigger] arranged(found, title_keys(found))[j]).title,
                (#[trigger] arranged(found, title_keys(found))[i]).title,
            ),
{
    lemma_arranged_by(
        found,
        title_keys(found),
        |row: Row| Rank { major: 0, minor: 0, text: codes(row.title) },
    );
}

/// Leafing through the pages misses none and shows none twice: the pages from one place on, and
/// those that follow them, are the pages from that place on.
pub proof fn law_leafing_misses_nothing(
    t: Tables,
    n: u32,
    m: u32,
    offset: u32,
    filter: Option<Seq<char>>,
)
    requires
        n + m <= u32::MAX,
        offset + n <= u32::MAX,
    ensures
        listed(t, n, offset, filter) + listed(t, m, (offset + n) as u32, filter) == listed(
            t,
            (n + m) as u32,
            offset,
            filter,
        ),
{
    let found = kept(t.pages, filter_flags(t.pages, filter));
    let all = entries_of(arranged(found, latest_keys(found)));
    let a = window(all, offset as nat, n as nat);
    let b = window(all, (offset + n) as nat, m as nat);
    assert(a + b =~= window(all, offset as nat, (n + m) as nat));
}

/// The sorting keys put one page before another where its last visit comes first.
pub proof fn lemma_by_visit(pages: Seq<Row>)
    ensures
        forall|i: int, j: int|
            #![trigger pages[i], pages[j]]
            rank_before(
                latest_first(pages[i].last_visit_at),
                latest_first(pages[j].last_visit_at),
            ) == visited_before(pages[i].last_visit_at, pages[j].last_visit_at),
{
    assert forall|i: int, j: int|
        #![trigger pages[i], pages[j]]
        rank_before(latest_first(pages[i].last_visit_at), latest_first(pages[j].last_visit_at))
            == visited_before(pages[i].last_visit_at, pages[j].last_visit_at) by {
        if let (Some(s), Some(t)) = (pages[i].last_visit_at, pages[j].last_visit_at) {
            law_codes_down_reverse_the_order(s, t);
        }
        if pages[i].last_visit_at is None && pages[j].last_visit_at is None {
            lemma_seq_before_total(codes_down(""@), codes_down(""@));
        }
    }
}

/// The list of pages shows every page whose URL or title holds the filter in whatever case, or
/// every page without a filter, the last visited first, and no other; it begins at the offset and
/// ends at the limit.
pub proof fn law_the_list_shows_every_page_that_passes(
    t: Tables,
    limit: u32,
    offset: u32,
    filter: Option<Seq<char>>,
)
    ensures
        exists|whole: Seq<Entry>|
            #[trigger] is_part(
                listed(t, limit, offset, filter),
                whole,
                offset as nat,
                limit as nat,
            ) && sorted(
                t.pages.len(),
                whole,
                |i: int|
                    filter is None || filter->0.len() == 0 || contains_text(
                        ascii_lowered(t.pages[i].url),
                        ascii_lowered(filter->0),
                    ) || contains_text(ascii_lowered(t.pages[i].title), ascii_lowered(filter->0)),
                |i: int|
                    Entry {
                        url: t.pages[i].url,
                        title: t.pages[i].title,
                        status: t.pages[i].status,
                        starred: t.pages[i].starred,
                    },
                |i: int, j: int|
                    visited_before(t.pages[i].last_visit_at, t.pages[j].last_visit_at),
            ),
{
    let pages = t.pages;
    let flags = filter_flags(pages, filter);
    let found = kept(pages, flags);
    let whole = entries_of(arranged(found, latest_keys(found)));
    lemma_by_visit(pages);
    lemma_kept_and_sorted(
        pages,
        flags,
        latest_keys(found),
        |row: Row| latest_first(row.last_visit_at),
        |row: Row| entry_of(row),
        whole,
        |i: int|
            filter is None || filter->0.len() == 0 || contains_text(
                ascii_lowered(pages[i].url),
                ascii_lowered(filter->0),
            ) || contains_text(ascii_lowered(pages[i].title), ascii_lowered(filter->0)),
        |i: int|
            Entry {
                url: pages[i].url,
                title: pages[i].title,
                status: pages[i].status,
                starred: pages[i].starred,
            },
        |i: int, j: int| visited_before(pages[i].last_visit_at, pages[j].last_visit_at),
    );
    assert(is_part(listed(t, limit, offset, filter), whole, offset as nat, limit as nat));
}

/// The list of starred pages shows every starred page, in the order of the titles, up to the
/// limit, and no other.
pub proof fn law_the_list_shows_every_starred_page(t: Tables, limit: u32)
    ensures
        exists|whole: Seq<Entry>|
            #[trigger] is_part(listed_starred(t, limit), whole, 0, limit as nat) && sorted(
                t.pages.len(),
                whole,
                |i: int| t.pages[i].starred,
                |i: int|
                    Entry {
                        url: t.pages[i].url,
                        title: t.pages[i].title,
                        status: t.pages[i].status,
                        starred: t.pages[i].starred,
                    },
                |i: int, j: int| text_before(t.pages[i].title, t.pages[j].title),
            ),
{
    let pages = t.pages;
    let flags = star_flags(pages);
    let found = kept(pages, flags);
    let whole = entries_of(arranged(found, title_keys(found)));
    lemma_kept_and_sorted(
        pages,
        flags,
        title_keys(found),
        |row: Row| Rank { major: 0, minor: 0, text: codes(row.title) },
        |row: Row| entry_of(row),
        whole,
        |i: int| pages[i].starred,
        |i: int|
            Entry {
                url: pages[i].url,
                title: pages[i].title,
                status: pages[i].status,
                starred: pages[i].starred,
            },
        |i: int, j: int| text_before(pages[i].title, pages[j].title),
    );
    assert(is_part(listed_starred(t, limit), whole, 0, limit as nat));
}

/// The pages that are to be fetched are the first of those that are pending, in the order of the
/// index.
pub proof fn law_pending_pages_are_listed(pages: Seq<Row>, limit: u32)
    ensures
        ({
            let whole = urls_in(kept(pages, status_flags(pages, FetchStatus::Pending)));
            &&& picked(
                pages.len(),
                whole,
                |i: int| pages[i].status is Pending,
                |i: int| pages[i].url,
            )
            &&& is_part(first_n(whole, limit as nat), whole, 0, limit as nat)
        }),
{
    lemma_kept_and_changed(
        pages,
        status_flags(pages, FetchStatus::Pending),
        |row: Row| row.url,
        |i: int| pages[i].status is Pending,
        |i: int| pages[i].url,
    );
}

/// The counts of the index are of its pages: those with a status, and those with an embedding.
pub proof fn law_counts_are_of_pages(pages: Seq<Row>, status: FetchStatus)
    ensures
        count_status(pages, status) == pages.filter(|row: Row| row.status == status).len(),
        count_embedded(pages) == pages.filter(|row: Row| row.embedding is Some).len(),
    decreases pages.len(),
{
    reveal(Seq::filter);
    if pages.len() > 0 {
        law_counts_are_of_pages(pages.drop_last(), status);
    }
}

/// The icon of a host is in its place: the first under that host, and there is none where the
/// place is the end of the list.
pub proof fn law_the_place_of_an_icon(list: Seq<crate::index::store::Icon>, host: Seq<char>)
    ensures
        0 <= icon_place(list, host) <= list.len(),
        icon_place(list, host) < list.len() ==> list[icon_place(list, host)].host == host,
        forall|i: int| 0 <= i < icon_place(list, host) ==> (#[trigger] list[i]).host != host,
    decreases list.len(),
{
    if list.len() > 0 && list[0].host != host {
        let rest = list.drop_first();
        law_the_place_of_an_icon(rest, host);
        assert forall|i: int| 0 <= i < icon_place(list, host) implies (#[trigger] list[i]).host
            != host by {
            if i > 0 {
                assert(rest[i - 1] == list[i]);
            }
        }
    }
}

/// An icon that is stored is the one that is read for its host, and those of other hosts stay.
pub proof fn law_a_stored_icon_is_read(
    t: Tables,
    host: Seq<char>,
    mime: Seq<char>,
    data: Seq<u8>,
    now: Seq<char>,
    other: Seq<char>,
)
    ensures
        ({
            let after = icon_stored(t, host, mime, data, now).favicons;
            let at = icon_place(after, host);
            &&& at < after.len()
            &&& after[at].mime == mime && after[at].data == data && after[at].fetched_at == Some(now)
            &&& other != host ==> {
                let was = icon_place(t.favicons, other);
                let is = icon_place(after, other);
                &&& was < t.favicons.len() <==> is < after.len()
                &&& was < t.favicons.len() ==> after[is] == t.favicons[was]
            }
        }),
{
    let before = t.favicons;
    let after = icon_stored(t, host, mime, data, now).favicons;
    law_the_place_of_an_icon(before, host);
    law_the_place_of_an_icon(after, host);
    law_the_place_of_an_icon(before, other);
    law_the_place_of_an_icon(after, other);
    let p = icon_place(before, host);
    let at = icon_place(after, host);
    assert(after[p].host == host);
    if at < p {
        assert(after[at] == before[at]);
    }
    if other != host {
        let was = icon_place(before, other);
        let is = icon_place(after, other);
        if was < before.len() {
            assert(after[was] == before[was]);
            if is < was {
                assert(after[is].host == other);
                assert(before[is] == after[is]);
            }
        }
        if is < after.len() && was == before.len() {
            assert(after[is].host == other);
            assert(before[is] == after[is]);
        }
    }
}

/// A list without a text has all others, in their order.
pub proof fn law_only_one_text_is_taken_out(list: Seq<Seq<char>>, s: Seq<char>)
    ensures
        picked(list.len(), without_text(list, s), |i: int| list[i] != s, |i: int| list[i]),
    decreases list.len(),
{
    if list.len() == 0 {
        lemma_picked_none(|i: int| list[i] != s, |i: int| list[i]);
    } else {
        let init = list.drop_last();
        law_only_one_text_is_taken_out(init, s);
        lemma_picked_one_more(
            init.len(),
            without_text(init, s),
            |i: int| init[i] != s,
            |i: int| init[i],
            without_text(list, s),
            |i: int| list[i] != s,
            |i: int| list[i],
        );
    }
}

/// The texts of pages are those of all pages that are asked for and are in the index, in the
/// order in which they are asked for.
pub proof fn law_every_text_that_is_there_is_read(pages: Seq<Row>, urls: Seq<Seq<char>>)
    ensures
        picked(
            urls.len(),
            bodies_for(pages, urls),
            |i: int| exists|k: int| 0 <= k < pages.len() && (#[trigger] pages[k]).url == urls[i],
            |i: int| (urls[i], pages[place_of(pages, urls[i])].body),
        ),
    decreases urls.len(),
{
    let chosen = |i: int|
        exists|k: int| 0 <= k < pages.len() && (#[trigger] pages[k]).url == urls[i];
    let gives = |i: int| (urls[i], pages[place_of(pages, urls[i])].body);
    if urls.len() == 0 {
        lemma_picked_none(chosen, gives);
    } else {
        let init = urls.drop_last();
        law_every_text_that_is_there_is_read(pages, init);
        law_the_place_of_a_page(pages, urls.last());
        let at = place_of(pages, urls.last());
        if at < pages.len() {
            assert(pages[at].url == urls.last());
        }
        lemma_picked_one_more(
            init.len(),
            bodies_for(pages, init),
            |i: int| exists|k: int| 0 <= k < pages.len() && (#[trigger] pages[k]).url == init[i],
            |i: int| (init[i], pages[place_of(pages, init[i])].body),
            bodies_for(pages, urls),
            chosen,
            gives,
        );
    }
}

/// The place of a page is the first with its URL, and the end of the list where there is none.
pub proof fn law_the_place_of_a_page(pages: Seq<Row>, url: Seq<char>)
    ensures
        0 <= place_of(pages, url) <= pages.len(),
        place_of(pages, url) < pages.len() ==> pages[place_of(pages, url)].url == url,
        forall|i: int| 0 <= i < place_of(pages, url) ==> (#[trigger] pages[i]).url != url,
    decreases pages.len(),
{
    if pages.len() > 0 && pages[0].url != url {
        let rest = pages.drop_first();
        law_the_place_of_a_page(rest, url);
        assert forall|i: int| 0 <= i < place_of(pages, url) implies (#[trigger] pages[i]).url
            != url by {
            if i > 0 {
                assert(rest[i - 1] == pages[i]);
            }
        }
    }
}

/// A page is shown with all that is kept of it but its embedding.
pub proof fn law_a_page_is_shown_whole(row: Row)
    ensures
        page_tree(row) == Tree::Object(
            seq![
                ("url"@, Tree::Text(row.url)),
                ("title"@, Tree::Text(row.title)),
                ("body"@, Tree::Text(row.body)),
                ("fetch_status"@, Tree::Text(row.status.name())),
                ("starred"@, Tree::Bool(row.starred)),
                (
                    "first_visit_at"@,
                    if row.first_visit_at is Some {
                        Tree::Text(row.first_visit_at->0)
                    } else {
                        Tree::Null
                    },
                ),
                (
                    "last_visit_at"@,
                    if row.last_visit_at is Some {
                        Tree::Text(row.last_visit_at->0)
                    } else {
                        Tree::Null
                    },
                ),
            ],
        ),
{
    assert(page_tree(row)->Object_0 =~= seq![
        ("url"@, Tree::Text(row.url)),
        ("title"@, Tree::Text(row.title)),
        ("body"@, Tree::Text(row.body)),
        ("fetch_status"@, Tree::Text(row.status.name())),
        ("starred"@, Tree::Bool(row.starred)),
        ("first_visit_at"@, opt_tree(row.first_visit_at)),
        ("last_visit_at"@, opt_tree(row.last_visit_at)),
    ]);
}

} // verus!
