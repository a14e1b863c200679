//! The tables of the index, and what each operation does to them.

use vstd::prelude::*;
use vstd::string::*;

use crate::config::{any_matches, matches_any};
use crate::lists::push_distinct;
use crate::order::text_before;
use crate::text::{
    contains, contains_text, copied, has_prefix, opt, opt_bytes, pairs, same_text, starts_with,
    texts,
};

verus! {

/// How far the fetching of a page has come.
#[derive(Debug, Clone, Copy, PartialEq, Eq, Structural)]
pub enum FetchStatus {
    Pending,
    Fetched,
    AuthWall,
    Skip,
    Error,
}

impl FetchStatus {
    /// The name of a status.
    pub open spec fn name(self) -> Seq<char> {
        match self {
            FetchStatus::Pending => "pending"@,
            FetchStatus::Fetched => "fetched"@,
            FetchStatus::AuthWall => "auth_wall"@,
            FetchStatus::Skip => "skip"@,
            FetchStatus::Error => "error"@,
        }
    }

    /// The name of a status.
    pub fn as_str(self) -> (r: &'static str)
        ensures
            r@ == self.name(),
    {
        match self {
            FetchStatus::Pending => "pending",
            FetchStatus::Fetched => "fetched",
            FetchStatus::AuthWall => "auth_wall",
            FetchStatus::Skip => "skip",
            FetchStatus::Error => "error",
        }
    }

    /// The status with a name; none where no status has it.
    pub fn from_name(s: &str) -> (r: Option<FetchStatus>)
        ensures
            match r {
                Some(status) => s@ == status.name(),
                None => forall|status: FetchStatus| s@ != #[trigger] status.name(),
            },
    {
        if same_text(s, "pending") {
            Some(FetchStatus::Pending)
        } else if same_text(s, "fetched") {
            Some(FetchStatus::Fetched)
        } else if same_text(s, "auth_wall") {
            Some(FetchStatus::AuthWall)
        } else if same_text(s, "skip") {
            Some(FetchStatus::Skip)
        } else if same_text(s, "error") {
            Some(FetchStatus::Error)
        } else {
            None
        }
    }
}

/// No two statuses have the same name, so that a stored name gives back the status.
pub proof fn law_status_names_differ(a: FetchStatus, b: FetchStatus)
    requires
        a.name() == b.name(),
    ensures
        a == b,
{
    reveal_strlit("pending");
    reveal_strlit("fetched");
    reveal_strlit("auth_wall");
    reveal_strlit("skip");
    reveal_strlit("error");
    assert("pending"@[0] == 'p');
    assert("fetched"@[0] == 'f');
    assert("auth_wall"@[0] == 'a');
    assert("skip"@[0] == 's');
    assert("error"@[0] == 'e');
    assert(a.name()[0] == b.name()[0]);
}

/// A page of the index.
#[derive(Debug)]
pub struct PageRow {
    pub id: i64,
    pub url: String,
    pub title: String,
    pub body: String,
    pub fetched_at: Option<String>,
    pub fetch_status: FetchStatus,
    pub embedding: Option<Vec<u8>>,
    pub last_visit_at: Option<String>,
    pub fetch_attempts: u64,
    pub starred: bool,
    pub first_visit_at: Option<String>,
}

/// What a page of the index stands for.
#[verifier::ext_equal]
pub struct Row {
    pub id: int,
    pub url: Seq<char>,
    pub title: Seq<char>,
    pub body: Seq<char>,
    pub fetched_at: Option<Seq<char>>,
    pub status: FetchStatus,
    pub embedding: Option<Seq<u8>>,
    pub last_visit_at: Option<Seq<char>>,
    pub attempts: int,
    pub starred: bool,
    pub first_visit_at: Option<Seq<char>>,
}

impl View for PageRow {
    type V = Row;

    open spec fn view(&self) -> Row {
        Row {
            id: self.id as int,
            url: self.url@,
            title: self.title@,
            body: self.body@,
            fetched_at: opt(self.fetched_at),
            status: self.fetch_status,
            embedding: opt_bytes(self.embedding),
            last_visit_at: opt(self.last_visit_at),
            attempts: self.fetch_attempts as int,
            starred: self.starred,
            first_visit_at: opt(self.first_visit_at),
        }
    }
}

/// An entry of the full-text table.
#[derive(Debug)]
pub struct TextRow {
    pub id: i64,
    pub title: String,
    pub body: String,
}

/// What an entry of the full-text table stands for.
#[verifier::ext_equal]
pub struct Words {
    pub id: int,
    pub title: Seq<char>,
    pub body: Seq<char>,
}

impl View for TextRow {
    type V = Words;

    open spec fn view(&self) -> Words {
        Words { id: self.id as int, title: self.title@, body: self.body@ }
    }
}

/// The icon of a host.
#[derive(Debug)]
pub struct IconRow {
    pub host: String,
    pub mime: String,
    pub data: Vec<u8>,
    pub fetched_at: Option<String>,
}

/// What an icon stands for.
#[verifier::ext_equal]
pub struct Icon {
    pub host: Seq<char>,
    pub mime: Seq<char>,
    pub data: Seq<u8>,
    pub fetched_at: Option<Seq<char>>,
}

impl View for IconRow {
    type V = Icon;

    open spec fn view(&self) -> Icon {
        Icon {
            host: self.host@,
            mime: self.mime@,
            data: self.data@,
            fetched_at: opt(self.fetched_at),
        }
    }
}

/// The tables of the index.
#[derive(Debug)]
pub struct IndexStore {
    pub pages: Vec<PageRow>,
    pub words: Vec<TextRow>,
    pub favicons: Vec<IconRow>,
    pub banned_hosts: Vec<String>,
    pub cluster_ignored_domains: Vec<String>,
    pub meta: Vec<(String, String)>,
    /// The number of the next new page.
    pub next_id: i64,
}

/// What the tables stand for.
#[verifier::ext_equal]
pub struct Tables {
    pub pages: Seq<Row>,
    pub words: Seq<Words>,
    pub favicons: Seq<Icon>,
    pub banned_hosts: Seq<Seq<char>>,
    pub cluster_ignored_domains: Seq<Seq<char>>,
    pub meta: Seq<(Seq<char>, Seq<char>)>,
    pub next_id: int,
}

/// What pages stand for.
pub open spec fn rows(list: Seq<PageRow>) -> Seq<Row> {
    Seq::new(list.len(), |i: int| list[i]@)
}

/// What entries of the full-text table stand for.
pub open spec fn words_of(list: Seq<TextRow>) -> Seq<Words> {
    Seq::new(list.len(), |i: int| list[i]@)
}

/// What icons stand for.
pub open spec fn icons(list: Seq<IconRow>) -> Seq<Icon> {
    Seq::new(list.len(), |i: int| list[i]@)
}

impl View for IndexStore {
    type V = Tables;

    open spec fn view(&self) -> Tables {
        Tables {
            pages: rows(self.pages@),
            words: words_of(self.words@),
            favicons: icons(self.favicons@),
            banned_hosts: texts(self.banned_hosts@),
            cluster_ignored_domains: texts(self.cluster_ignored_domains@),
            meta: pairs(self.meta@),
            next_id: self.next_id as int,
        }
    }
}

/// The place of the page with this URL, and the end of the list where there is none.
pub open spec fn place_of(pages: Seq<Row>, url: Seq<char>) -> int
    decreases pages.len(),
{
    if pages.len() == 0 {
        0
    } else if pages[0].url == url {
        0
    } else {
        1 + place_of(pages.drop_first(), url)
    }
}

/// The list has a page with this URL.
pub open spec fn has_page(pages: Seq<Row>, url: Seq<char>) -> bool {
    place_of(pages, url) < pages.len()
}

/// What the place of a page means.
pub proof fn lemma_place_of(pages: Seq<Row>, url: Seq<char>)
    ensures
        0 <= place_of(pages, url) <= pages.len(),
        place_of(pages, url) < pages.len() ==> pages[place_of(pages, url)].url == url,
        forall|k: int| 0 <= k < place_of(pages, url) ==> (#[trigger] pages[k]).url != url,
    decreases pages.len(),
{
    if pages.len() > 0 && pages[0].url != url {
        let rest = pages.drop_first();
        lemma_place_of(rest, url);
        assert forall|k: int| 0 <= k < place_of(pages, url) implies (#[trigger] pages[k]).url
            != url by {
            if k > 0 {
                assert(rest[k - 1] == pages[k]);
            }
        }
    }
}

/// A place that has the URL, with none before it that does, is the place of the page.
pub proof fn lemma_place_unique(pages: Seq<Row>, url: Seq<char>, at: int)
    requires
        0 <= at <= pages.len(),
        at < pages.len() ==> pages[at].url == url,
        forall|k: int| 0 <= k < at ==> (#[trigger] pages[k]).url != url,
    ensures
        place_of(pages, url) == at,
{
    lemma_place_of(pages, url);
    let p = place_of(pages, url);
    if p < at {
        assert(pages[p].url != url);
    }
    if at < p {
        assert(pages[at].url != url);
    }
}

/// Entries of the full-text table without those of a page.
pub open spec fn without_words(list: Seq<Words>, id: int) -> Seq<Words>
    decreases list.len(),
{
    if list.len() == 0 {
        Seq::empty()
    } else if list.last().id == id {
        without_words(list.drop_last(), id)
    } else {
        without_words(list.drop_last(), id).push(list.last())
    }
}

/// The full-text table with a page entered anew.
pub open spec fn reworded(
    list: Seq<Words>,
    id: int,
    title: Seq<char>,
    body: Seq<char>,
) -> Seq<Words> {
    without_words(list, id).push(Words { id, title, body })
}

/// A page that was only just heard of.
pub open spec fn new_row(id: int, url: Seq<char>) -> Row {
    Row {
        id,
        url,
        title: Seq::empty(),
        body: Seq::empty(),
        fetched_at: None,
        status: FetchStatus::Pending,
        embedding: None,
        last_visit_at: None,
        attempts: 0,
        starred: false,
        first_visit_at: None,
    }
}

/// The tables hold together: no URL and no number of a page occurs twice, new pages get new
/// numbers, each entry of the full-text table has the text of its page, and no ban, ignored
/// domain, host of an icon or key of a value occurs twice.
pub open spec fn consistent(t: Tables) -> bool {
    &&& forall|i: int, j: int|
        0 <= i < j < t.pages.len() ==> (#[trigger] t.pages[i]).url != (#[trigger] t.pages[j]).url
    &&& forall|i: int, j: int|
        0 <= i < j < t.pages.len() ==> (#[trigger] t.pages[i]).id != (#[trigger] t.pages[j]).id
    &&& forall|i: int| 0 <= i < t.pages.len() ==> (#[trigger] t.pages[i]).id < t.next_id
    &&& forall|i: int, j: int|
        0 <= i < j < t.words.len() ==> (#[trigger] t.words[i]).id != (#[trigger] t.words[j]).id
    &&& forall|k: int| 0 <= k < t.words.len() ==> has_text(t.pages, #[trigger] t.words[k])
    &&& t.banned_hosts.no_duplicates()
    &&& t.cluster_ignored_domains.no_duplicates()
    &&& forall|i: int, j: int|
        0 <= i < j < t.favicons.len() ==> (#[trigger] t.favicons[i]).host != (
        #[trigger] t.favicons[j]).host
    &&& forall|i: int, j: int|
        0 <= i < j < t.meta.len() ==> (#[trigger] t.meta[i]).0 != (#[trigger] t.meta[j]).0
}

/// A page of the list has the number and the text of an entry of the full-text table.
pub open spec fn has_text(pages: Seq<Row>, w: Words) -> bool {
    exists|i: int|
        0 <= i < pages.len() && (#[trigger] pages[i]).id == w.id && pages[i].body == w.body
}

impl IndexStore {
    /// Tables without any entries.
    pub fn empty() -> (r: IndexStore)
        ensures
            r@.pages.len() == 0,
            r@.words.len() == 0,
            r@.favicons.len() == 0,
            r@.banned_hosts.len() == 0,
            r@.cluster_ignored_domains.len() == 0,
            r@.meta.len() == 0,
            r@.next_id == 1,
            consistent(r@),
    {
        IndexStore {
            pages: Vec::new(),
            words: Vec::new(),
            favicons: Vec::new(),
            banned_hosts: Vec::new(),
            cluster_ignored_domains: Vec::new(),
            meta: Vec::new(),
            next_id: 1,
        }
    }

    /// The place of the page with this URL.
    pub fn find(&self, url: &str) -> (r: Option<usize>)
        ensures
            match r {
                Some(i) => i < self.pages@.len() && i == place_of(self@.pages, url@),
                None => !has_page(self@.pages, url@),
            },
    {
        let ghost all = self@.pages;
        let mut i: usize = 0;
        while i < self.pages.len()
            invariant
                i <= self.pages@.len(),
                all == self@.pages,
                forall|k: int| 0 <= k < i ==> (#[trigger] all[k]).url != url@,
            decreases self.pages@.len() - i,
        {
            if same_text(self.pages[i].url.as_str(), url) {
                proof {
                    lemma_place_unique(all, url@, i as int);
                }
                return Some(i);
            }
            i = i + 1;
        }
        proof {
            lemma_place_unique(all, url@, i as int);
        }
        None
    }
}

/// Takes the entries of a page out of the full-text table.
fn remove_words(list: &mut Vec<TextRow>, id: i64)
    ensures
        words_of(final(list)@) == without_words(words_of(old(list)@), id as int),
{
    let ghost all = words_of(list@);
    let n: usize = list.len();
    let mut waiting: Vec<TextRow> = Vec::new();
    waiting.append(list);
    crate::order::reverse(&mut waiting);
    let mut i: usize = 0;
    assert(words_of(list@) =~= without_words(all.take(0), id as int));
    while i < n
        invariant
            i <= n,
            n == all.len(),
            waiting@.len() == n - i,
            forall|k: int| 0 <= k < waiting@.len() ==> (#[trigger] waiting@[k])@ == all[n - 1 - k],
            words_of(list@) == without_words(all.take(i as int), id as int),
        decreases n - i,
    {
        let w: TextRow = waiting.pop().unwrap();
        let ghost t = all.take(i as int + 1);
        assert(t.drop_last() =~= all.take(i as int));
        assert(t.last() == w@);
        if w.id != id {
            let ghost before = list@;
            list.push(w);
            assert(words_of(list@) =~= words_of(before).push(w@));
        }
        i = i + 1;
    }
    assert(all.take(n as int) =~= all);
}

/// The tables with the text of a page entered: the page is fetched, and its words are found.
pub open spec fn upserted(
    t: Tables,
    url: Seq<char>,
    title: Seq<char>,
    body: Seq<char>,
    now: Seq<char>,
) -> Tables {
    let at = place_of(t.pages, url);
    if at < t.pages.len() {
        let row = t.pages[at];
        Tables {
            pages: t.pages.update(
                at,
                Row { title, body, fetched_at: Some(now), status: FetchStatus::Fetched, ..row },
            ),
            words: reworded(t.words, row.id, title, body),
            ..t
        }
    } else {
        let row = Row {
            title,
            body,
            fetched_at: Some(now),
            status: FetchStatus::Fetched,
            ..new_row(t.next_id, url)
        };
        Tables {
            pages: t.pages.push(row),
            words: t.words.push(Words { id: t.next_id, title, body }),
            next_id: t.next_id + 1,
            ..t
        }
    }
}

/// The tables with a URL heard of.
pub open spec fn registered(t: Tables, url: Seq<char>) -> Tables {
    if has_page(t.pages, url) {
        t
    } else {
        Tables { pages: t.pages.push(new_row(t.next_id, url)), next_id: t.next_id + 1, ..t }
    }
}

/// The first of two values that is there.
pub open spec fn first_known(a: Option<Seq<char>>, b: Option<Seq<char>>) -> Option<Seq<char>> {
    match a {
        Some(_) => a,
        None => b,
    }
}

/// A time is later than one that may be missing.
pub open spec fn is_later(new: Option<Seq<char>>, old: Option<Seq<char>>) -> bool {
    match new {
        Some(n) => text_before(
            match old {
                Some(o) => o,
                None => ""@,
            },
            n,
        ),
        None => false,
    }
}

/// A page with a visit entered: a later visit counts as the last one and has the page fetched
/// again, unless it was skipped.
pub open spec fn visited_row(row: Row, at: Seq<char>) -> Row {
    let later = is_later(Some(at), row.last_visit_at);
    Row {
        first_visit_at: first_known(row.first_visit_at, Some(at)),
        last_visit_at: if later {
            Some(at)
        } else {
            row.last_visit_at
        },
        status: if later && row.status != FetchStatus::Skip {
            FetchStatus::Pending
        } else {
            row.status
        },
        ..row
    }
}

/// The tables with a visit entered. Visits of banned pages do not count.
pub open spec fn with_visit(t: Tables, url: Seq<char>, at: Seq<char>) -> Tables {
    let place = place_of(t.pages, url);
    if any_matches(url, t.banned_hosts) {
        t
    } else if place < t.pages.len() {
        Tables { pages: t.pages.update(place, visited_row(t.pages[place], at)), ..t }
    } else {
        let row = Row {
            first_visit_at: Some(at),
            last_visit_at: Some(at),
            ..new_row(t.next_id, url)
        };
        Tables { pages: t.pages.push(row), next_id: t.next_id + 1, ..t }
    }
}

/// The tables with a page starred that is to be fetched again. The title stays where none is
/// given.
pub open spec fn bookmarked(t: Tables, url: Seq<char>, title: Seq<char>, now: Seq<char>) -> Tables {
    let place = place_of(t.pages, url);
    if place < t.pages.len() {
        let row = t.pages[place];
        Tables {
            pages: t.pages.update(
                place,
                Row {
                    title: if title.len() > 0 {
                        title
                    } else {
                        row.title
                    },
                    starred: true,
                    status: FetchStatus::Pending,
                    last_visit_at: Some(now),
                    first_visit_at: first_known(row.first_visit_at, Some(now)),
                    ..row
                },
            ),
            ..t
        }
    } else {
        let row = Row {
            title,
            starred: true,
            first_visit_at: Some(now),
            last_visit_at: Some(now),
            ..new_row(t.next_id, url)
        };
        Tables { pages: t.pages.push(row), next_id: t.next_id + 1, ..t }
    }
}

/// The tables with one page changed, where there is one with this URL.
pub open spec fn with_row(t: Tables, url: Seq<char>, change: spec_fn(Row) -> Row) -> Tables {
    let place = place_of(t.pages, url);
    if place < t.pages.len() {
        Tables { pages: t.pages.update(place, change(t.pages[place])), ..t }
    } else {
        t
    }
}

/// The tables with the star of a page set.
pub open spec fn star_set(t: Tables, url: Seq<char>, starred: bool) -> Tables {
    with_row(t, url, |row: Row| Row { starred, ..row })
}

/// The tables with the status of a page set.
pub open spec fn status_set(t: Tables, url: Seq<char>, status: FetchStatus) -> Tables {
    with_row(t, url, |row: Row| Row { status, ..row })
}

/// The tables with the embedding of a page set.
pub open spec fn embedding_set(t: Tables, url: Seq<char>, bytes: Seq<u8>) -> Tables {
    with_row(t, url, |row: Row| Row { embedding: Some(bytes), ..row })
}

/// A page whose fetching failed once more: from `max_attempts` failures on it is given up.
pub open spec fn failed_row(row: Row, max_attempts: u32) -> Row {
    Row {
        attempts: row.attempts + 1,
        status: if row.attempts + 1 >= max_attempts {
            FetchStatus::Error
        } else {
            row.status
        },
        ..row
    }
}

/// The tables with a failure to fetch a page entered.
pub open spec fn failure_entered(t: Tables, url: Seq<char>, max_attempts: u32) -> Tables {
    with_row(t, url, |row: Row| failed_row(row, max_attempts))
}

/// The tables without the page with this URL.
pub open spec fn page_deleted(t: Tables, url: Seq<char>) -> Tables {
    let place = place_of(t.pages, url);
    if place < t.pages.len() {
        Tables {
            pages: t.pages.remove(place),
            words: without_words(t.words, t.pages[place].id),
            ..t
        }
    } else {
        t
    }
}

/// Pages without those whose URL holds a text.
pub open spec fn pages_without(pages: Seq<Row>, part: Seq<char>) -> Seq<Row>
    decreases pages.len(),
{
    if pages.len() == 0 {
        Seq::empty()
    } else if contains_text(pages.last().url, part) {
        pages_without(pages.drop_last(), part)
    } else {
        pages_without(pages.drop_last(), part).push(pages.last())
    }
}

/// The full-text table without the pages whose URL holds a text.
pub open spec fn words_without(words: Seq<Words>, pages: Seq<Row>, part: Seq<char>) -> Seq<Words>
    decreases pages.len(),
{
    if pages.len() == 0 {
        words
    } else if contains_text(pages.last().url, part) {
        without_words(words_without(words, pages.drop_last(), part), pages.last().id)
    } else {
        words_without(words, pages.drop_last(), part)
    }
}

/// The tables without the pages whose URL holds a text.
pub open spec fn host_deleted(t: Tables, part: Seq<char>) -> Tables {
    Tables {
        pages: pages_without(t.pages, part),
        words: words_without(t.words, t.pages, part),
        ..t
    }
}

/// A list with a text added, unless it has it already.
pub open spec fn with_text(list: Seq<Seq<char>>, s: Seq<char>) -> Seq<Seq<char>> {
    if list.contains(s) {
        list
    } else {
        list.push(s)
    }
}

/// The tables with a host banned: its pages go, and the ban is remembered.
pub open spec fn host_banned(t: Tables, host: Seq<char>) -> Tables {
    host_deleted(Tables { banned_hosts: with_text(t.banned_hosts, host), ..t }, host)
}

/// Whether a time is later than one that may be missing.
fn later(new: &Option<String>, old: &Option<String>) -> (r: bool)
    ensures
        r == is_later(opt(*new), opt(*old)),
{
    match new {
        Some(n) => match old {
            Some(o) => text_precedes(o.as_str(), n.as_str()),
            None => text_precedes("", n.as_str()),
        },
        None => false,
    }
}

/// Whether a text stands before another in the order of code points.
pub fn text_precedes(a: &str, b: &str) -> (r: bool)
    ensures
        r == text_before(a@, b@),
{
    crate::order::Key::number_and_text(0, a).before(&crate::order::Key::number_and_text(0, b))
}

/// A page that was only just heard of.
fn make_row(id: i64, url: &str) -> (r: PageRow)
    ensures
        r@ == new_row(id as int, url@),
{
    let r = PageRow {
        id,
        url: url.to_owned(),
        title: String::new(),
        body: String::new(),
        fetched_at: None,
        fetch_status: FetchStatus::Pending,
        embedding: None,
        last_visit_at: None,
        fetch_attempts: 0,
        starred: false,
        first_visit_at: None,
    };
    assert(r@ =~= new_row(id as int, url@));
    r
}

impl IndexStore {
    /// Adds a page at the end.
    fn add_row(&mut self, row: PageRow)
        requires
            old(self).next_id < i64::MAX,
        ensures
            final(self)@ == (Tables {
                pages: old(self)@.pages.push(row@),
                next_id: old(self)@.next_id + 1,
                ..old(self)@
            }),
    {
        self.pages.push(row);
        self.next_id = self.next_id + 1;
        assert(self@.pages =~= old(self)@.pages.push(row@));
    }

    /// Puts another page in place of one.
    fn put_row(&mut self, at: usize, row: PageRow)
        requires
            at < old(self).pages@.len(),
        ensures
            final(self)@ == (Tables {
                pages: old(self)@.pages.update(at as int, row@),
                ..old(self)@
            }),
    {
        self.pages[at] = row;
        assert(self@.pages =~= old(self)@.pages.update(at as int, row@));
    }

    /// A copy of a page.
    fn copy_row(&self, at: usize) -> (r: PageRow)
        requires
            at < self.pages@.len(),
        ensures
            r@ == self@.pages[at as int],
    {
        let p: &PageRow = &self.pages[at];
        let embedding: Option<Vec<u8>> = match &p.embedding {
            Some(b) => {
                let c: Vec<u8> = b.clone();
                assert(c@ =~= b@);
                Some(c)
            },
            None => None,
        };
        PageRow {
            id: p.id,
            url: p.url.clone(),
            title: p.title.clone(),
            body: p.body.clone(),
            fetched_at: copied(&p.fetched_at),
            fetch_status: p.fetch_status,
            embedding,
            last_visit_at: copied(&p.last_visit_at),
            fetch_attempts: p.fetch_attempts,
            starred: p.starred,
            first_visit_at: copied(&p.first_visit_at),
        }
    }

    /// Enters the text of a page: the page is fetched, and its words are found.
    pub fn upsert_page(&mut self, url: &str, title: &str, body: &str, now: &str)
        requires
            old(self).next_id < i64::MAX,
        ensures
            final(self)@ == upserted(old(self)@, url@, title@, body@, now@),
    {
        let words_row: TextRow;
        match self.find(url) {
            Some(at) => {
                let mut row: PageRow = self.copy_row(at);
                row.title = title.to_owned();
                row.body = body.to_owned();
                row.fetched_at = Some(now.to_owned());
                row.fetch_status = FetchStatus::Fetched;
                let id: i64 = row.id;
                self.put_row(at, row);
                remove_words(&mut self.words, id);
                words_row = TextRow { id, title: title.to_owned(), body: body.to_owned() };
            },
            None => {
                let id: i64 = self.next_id;
                let mut row: PageRow = make_row(id, url);
                row.title = title.to_owned();
                row.body = body.to_owned();
                row.fetched_at = Some(now.to_owned());
                row.fetch_status = FetchStatus::Fetched;
                self.add_row(row);
                words_row = TextRow { id, title: title.to_owned(), body: body.to_owned() };
            },
        }
        let ghost before = self.words@;
        self.words.push(words_row);
        assert(words_of(self.words@) =~= words_of(before).push(words_row@));
        assert(self@ =~= upserted(old(self)@, url@, title@, body@, now@));
    }

    /// Hears of a URL.
    pub fn register_url(&mut self, url: &str)
        requires
            old(self).next_id < i64::MAX,
        ensures
            final(self)@ == registered(old(self)@, url@),
    {
        if self.find(url).is_none() {
            let row: PageRow = make_row(self.next_id, url);
            self.add_row(row);
        }
    }

    /// Enters a visit of a page. Visits of banned pages do not count.
    pub fn register_visit(&mut self, url: &str, at: &str)
        requires
            old(self).next_id < i64::MAX,
        ensures
            final(self)@ == with_visit(old(self)@, url@, at@),
    {
        if matches_any(url, &self.banned_hosts) {
            return;
        }
        match self.find(url) {
            Some(place) => {
                let mut row: PageRow = self.copy_row(place);
                let visit: Option<String> = Some(at.to_owned());
                let is_newer: bool = later(&visit, &row.last_visit_at);
                if row.first_visit_at.is_none() {
                    row.first_visit_at = Some(at.to_owned());
                }
                if is_newer {
                    if row.fetch_status != FetchStatus::Skip {
                        row.fetch_status = FetchStatus::Pending;
                    }
                    row.last_visit_at = visit;
                }
                assert(row@ =~= visited_row(old(self)@.pages[place as int], at@));
                self.put_row(place, row);
            },
            None => {
                let mut row: PageRow = make_row(self.next_id, url);
                row.first_visit_at = Some(at.to_owned());
                row.last_visit_at = Some(at.to_owned());
                self.add_row(row);
            },
        }
    }

    /// Stars a page and has it fetched again; a URL not heard of yet is entered first.
    pub fn bookmark(&mut self, url: &str, title: &str, now: &str)
        requires
            old(self).next_id < i64::MAX,
        ensures
            final(self)@ == bookmarked(old(self)@, url@, title@, now@),
    {
        match self.find(url) {
            Some(place) => {
                let mut row: PageRow = self.copy_row(place);
                if title.unicode_len() > 0 {
                    row.title = title.to_owned();
                }
                row.starred = true;
                row.fetch_status = FetchStatus::Pending;
                row.last_visit_at = Some(now.to_owned());
                if row.first_visit_at.is_none() {
                    row.first_visit_at = Some(now.to_owned());
                }
                self.put_row(place, row);
            },
            None => {
                let mut row: PageRow = make_row(self.next_id, url);
                row.title = title.to_owned();
                row.starred = true;
                row.first_visit_at = Some(now.to_owned());
                row.last_visit_at = Some(now.to_owned());
                self.add_row(row);
            },
        }
        assert(self@ =~= bookmarked(old(self)@, url@, title@, now@));
    }

    /// Sets the star of a page.
    pub fn set_starred(&mut self, url: &str, starred: bool)
        ensures
            final(self)@ == star_set(old(self)@, url@, starred),
    {
        if let Some(place) = self.find(url) {
            let mut row: PageRow = self.copy_row(place);
            row.starred = starred;
            self.put_row(place, row);
        }
    }

    /// Sets the status of a page.
    pub fn mark_status(&mut self, url: &str, status: FetchStatus)
        ensures
            final(self)@ == status_set(old(self)@, url@, status),
    {
        if let Some(place) = self.find(url) {
            let mut row: PageRow = self.copy_row(place);
            row.fetch_status = status;
            self.put_row(place, row);
        }
    }

    /// Stores the embedding of a page.
    pub fn store_embedding(&mut self, url: &str, embedding: &Vec<u8>)
        ensures
            final(self)@ == embedding_set(old(self)@, url@, embedding@),
    {
        if let Some(place) = self.find(url) {
            let mut row: PageRow = self.copy_row(place);
            let bytes: Vec<u8> = embedding.clone();
            assert(bytes@ =~= embedding@);
            row.embedding = Some(bytes);
            self.put_row(place, row);
        }
    }

    /// Enters a failure to fetch a page. From `max_attempts` failures on the page is given up.
    pub fn record_fetch_error(&mut self, url: &str, max_attempts: u32)
        requires
            forall|i: int|
                0 <= i < old(self)@.pages.len() ==> (#[trigger] old(self)@.pages[i]).attempts
                    < u64::MAX,
        ensures
            final(self)@ == failure_entered(old(self)@, url@, max_attempts),
    {
        if let Some(place) = self.find(url) {
            let mut row: PageRow = self.copy_row(place);
            assert(old(self)@.pages[place as int].attempts < u64::MAX);
            row.fetch_attempts = row.fetch_attempts + 1;
            if row.fetch_attempts >= max_attempts as u64 {
                row.fetch_status = FetchStatus::Error;
            }
            self.put_row(place, row);
        }
    }

    /// Deletes a page.
    pub fn delete_page(&mut self, url: &str)
        ensures
            final(self)@ == page_deleted(old(self)@, url@),
    {
        if let Some(place) = self.find(url) {
            let row: PageRow = self.pages.remove(place);
            remove_words(&mut self.words, row.id);
            assert(self@.pages =~= old(self)@.pages.remove(place as int));
        }
    }
}

/// The tables with URLs heard of, one after the other.
pub open spec fn all_registered(t: Tables, urls: Seq<Seq<char>>) -> Tables
    decreases urls.len(),
{
    if urls.len() == 0 {
        t
    } else {
        registered(all_registered(t, urls.drop_last()), urls.last())
    }
}

/// The tables with visits entered, one after the other.
pub open spec fn with_visits(t: Tables, visits: Seq<(Seq<char>, Seq<char>)>) -> Tables
    decreases visits.len(),
{
    if visits.len() == 0 {
        t
    } else {
        let before = with_visits(t, visits.drop_last());
        with_visit(before, visits.last().0, visits.last().1)
    }
}

/// A link to a web page.
pub open spec fn is_web_url(url: Seq<char>) -> bool {
    has_prefix(url, "http://"@) || has_prefix(url, "https://"@)
}

/// The tables with a list of links starred. Links that lead elsewhere than to a web page do not
/// count.
pub open spec fn starred_imported(
    t: Tables,
    items: Seq<(Seq<char>, Seq<char>)>,
    now: Seq<char>,
) -> Tables
    decreases items.len(),
{
    if items.len() == 0 {
        t
    } else {
        let before = starred_imported(t, items.drop_last(), now);
        if is_web_url(items.last().0) {
            bookmarked(before, items.last().0, items.last().1, now)
        } else {
            before
        }
    }
}

/// How many of a list of links lead to web pages.
pub open spec fn web_links(items: Seq<(Seq<char>, Seq<char>)>) -> nat
    decreases items.len(),
{
    if items.len() == 0 {
        0
    } else {
        web_links(items.drop_last()) + if is_web_url(items.last().0) {
            1nat
        } else {
            0
        }
    }
}

/// A page in an export of the index.
#[derive(Debug)]
pub struct ExportPage {
    pub url: String,
    pub title: String,
    pub body: String,
    pub starred: bool,
    pub first_visit_at: Option<String>,
    pub last_visit_at: Option<String>,
}

/// What a page in an export stands for.
#[verifier::ext_equal]
pub struct Exported {
    pub url: Seq<char>,
    pub title: Seq<char>,
    pub body: Seq<char>,
    pub starred: bool,
    pub first_visit_at: Option<Seq<char>>,
    pub last_visit_at: Option<Seq<char>>,
}

impl View for ExportPage {
    type V = Exported;

    open spec fn view(&self) -> Exported {
        Exported {
            url: self.url@,
            title: self.title@,
            body: self.body@,
            starred: self.starred,
            first_visit_at: opt(self.first_visit_at),
            last_visit_at: opt(self.last_visit_at),
        }
    }
}

/// What the pages of an export stand for.
pub open spec fn exported(list: Seq<ExportPage>) -> Seq<Exported> {
    Seq::new(list.len(), |i: int| list[i]@)
}

/// An export of the index.
#[derive(Debug)]
pub struct FullExport {
    pub version: u32,
    pub exported_at: String,
    pub pages: Vec<ExportPage>,
    pub ban_list: Vec<String>,
}

/// A page of the index with a page of an export put over it: its star stays, its first visit
/// stays where it is known, and the later of the last visits counts.
pub open spec fn merged_row(row: Row, page: Exported) -> Row {
    Row {
        title: page.title,
        body: page.body,
        status: FetchStatus::Fetched,
        starred: row.starred || page.starred,
        first_visit_at: first_known(row.first_visit_at, page.first_visit_at),
        last_visit_at: if is_later(page.last_visit_at, row.last_visit_at) {
            page.last_visit_at
        } else {
            row.last_visit_at
        },
        ..row
    }
}

/// The tables with a page of an export brought in. A new page without text has no entry in the
/// full-text table.
pub open spec fn page_imported(t: Tables, page: Exported) -> Tables {
    let place = place_of(t.pages, page.url);
    if !is_web_url(page.url) {
        t
    } else if place < t.pages.len() {
        let row = t.pages[place];
        Tables {
            pages: t.pages.update(place, merged_row(row, page)),
            words: reworded(t.words, row.id, page.title, page.body),
            ..t
        }
    } else {
        let row = Row {
            title: page.title,
            body: page.body,
            status: FetchStatus::Fetched,
            starred: page.starred,
            first_visit_at: page.first_visit_at,
            last_visit_at: page.last_visit_at,
            ..new_row(t.next_id, page.url)
        };
        Tables {
            pages: t.pages.push(row),
            words: if page.body.len() > 0 {
                t.words.push(Words { id: t.next_id, title: page.title, body: page.body })
            } else {
                t.words
            },
            next_id: t.next_id + 1,
            ..t
        }
    }
}

/// The tables with the pages of an export brought in, one after the other.
pub open spec fn pages_imported(t: Tables, pages: Seq<Exported>) -> Tables
    decreases pages.len(),
{
    if pages.len() == 0 {
        t
    } else {
        page_imported(pages_imported(t, pages.drop_last()), pages.last())
    }
}

/// How many pages of an export are web pages.
pub open spec fn web_pages(pages: Seq<Exported>) -> nat
    decreases pages.len(),
{
    if pages.len() == 0 {
        0
    } else {
        web_pages(pages.drop_last()) + if is_web_url(pages.last().url) {
            1nat
        } else {
            0
        }
    }
}

/// A list of bans with those of an export added. Empty ones do not count.
pub open spec fn bans_added(list: Seq<Seq<char>>, more: Seq<Seq<char>>) -> Seq<Seq<char>>
    decreases more.len(),
{
    if more.len() == 0 {
        list
    } else {
        let before = bans_added(list, more.drop_last());
        if more.last().len() > 0 {
            with_text(before, more.last())
        } else {
            before
        }
    }
}

/// How many texts of a list are not empty.
pub open spec fn filled_count(list: Seq<Seq<char>>) -> nat
    decreases list.len(),
{
    if list.len() == 0 {
        0
    } else {
        filled_count(list.drop_last()) + if list.last().len() > 0 {
            1nat
        } else {
            0
        }
    }
}

/// The tables with an export brought in.
pub open spec fn all_imported(t: Tables, pages: Seq<Exported>, bans: Seq<Seq<char>>) -> Tables {
    let after = pages_imported(t, pages);
    Tables { banned_hosts: bans_added(after.banned_hosts, bans), ..after }
}

/// Whether a link leads to a web page.
fn web_url(url: &str) -> (r: bool)
    ensures
        r == is_web_url(url@),
{
    starts_with(url, "http://") || starts_with(url, "https://")
}

impl IndexStore {
    /// Hears of URLs.
    pub fn register_urls(&mut self, urls: &Vec<String>)
        requires
            old(self).next_id + urls@.len() <= i64::MAX,
        ensures
            final(self)@ == all_registered(old(self)@, texts(urls@)),
    {
        let ghost all = texts(urls@);
        let mut i: usize = 0;
        assert(all.take(0) =~= Seq::empty());
        while i < urls.len()
            invariant
                i <= urls@.len(),
                all == texts(urls@),
                old(self).next_id + urls@.len() <= i64::MAX,
                self.next_id <= old(self).next_id + i,
                self@ == all_registered(old(self)@, all.take(i as int)),
            decreases urls@.len() - i,
        {
            let ghost t = all.take(i as int + 1);
            assert(t.drop_last() =~= all.take(i as int));
            assert(t.last() == urls@[i as int]@);
            let ghost before = self@;
            self.register_url(urls[i].as_str());
            assert(self@.next_id <= before.next_id + 1);
            i = i + 1;
        }
        assert(all.take(all.len() as int) =~= all);
    }

    /// Enters visits of pages: a URL and a time each. A new page is to be fetched; one that was
    /// visited later than known is to be fetched again, unless it was skipped. Visits of banned
    /// pages do not count.
    pub fn register_visits(&mut self, visits: &Vec<(String, String)>)
        requires
            old(self).next_id + visits@.len() <= i64::MAX,
        ensures
            final(self)@ == with_visits(old(self)@, pairs(visits@)),
    {
        let ghost all = pairs(visits@);
        let mut i: usize = 0;
        assert(all.take(0) =~= Seq::empty());
        while i < visits.len()
            invariant
                i <= visits@.len(),
                all == pairs(visits@),
                old(self).next_id + visits@.len() <= i64::MAX,
                self.next_id <= old(self).next_id + i,
                self@ == with_visits(old(self)@, all.take(i as int)),
            decreases visits@.len() - i,
        {
            let ghost t = all.take(i as int + 1);
            assert(t.drop_last() =~= all.take(i as int));
            assert(t.last() == (visits@[i as int].0@, visits@[i as int].1@));
            let ghost before = self@;
            self.register_visit(visits[i].0.as_str(), visits[i].1.as_str());
            assert(self@.next_id <= before.next_id + 1);
            i = i + 1;
        }
        assert(all.take(all.len() as int) =~= all);
    }

    /// Stars a list of links, with their titles, and counts them. Links that lead elsewhere than
    /// to a web page are passed over.
    pub fn import_starred(&mut self, items: &Vec<(String, String)>, now: &str) -> (r: u64)
        requires
            old(self).next_id + items@.len() <= i64::MAX,
        ensures
            final(self)@ == starred_imported(old(self)@, pairs(items@), now@),
            r == web_links(pairs(items@)),
    {
        let ghost all = pairs(items@);
        let mut count: u64 = 0;
        let mut i: usize = 0;
        assert(all.take(0) =~= Seq::empty());
        while i < items.len()
            invariant
                i <= items@.len(),
                all == pairs(items@),
                old(self).next_id + items@.len() <= i64::MAX,
                self.next_id <= old(self).next_id + i,
                count <= i,
                count == web_links(all.take(i as int)),
                self@ == starred_imported(old(self)@, all.take(i as int), now@),
            decreases items@.len() - i,
        {
            let ghost t = all.take(i as int + 1);
            assert(t.drop_last() =~= all.take(i as int));
            assert(t.last() == (items@[i as int].0@, items@[i as int].1@));
            if web_url(items[i].0.as_str()) {
                let ghost before = self@;
                self.bookmark(items[i].0.as_str(), items[i].1.as_str(), now);
                assert(self@.next_id <= before.next_id + 1);
                count = count + 1;
            }
            i = i + 1;
        }
        assert(all.take(all.len() as int) =~= all);
        count
    }

    /// Brings in a page of an export.
    fn import_page(&mut self, page: &ExportPage)
        requires
            old(self).next_id < i64::MAX,
            is_web_url(page.url@),
        ensures
            final(self)@ == page_imported(old(self)@, page@),
    {
        match self.find(page.url.as_str()) {
            Some(place) => {
                let mut row: PageRow = self.copy_row(place);
                let id: i64 = row.id;
                row.title = page.title.clone();
                row.body = page.body.clone();
                row.fetch_status = FetchStatus::Fetched;
                row.starred = row.starred || page.starred;
                if row.first_visit_at.is_none() {
                    row.first_visit_at = copied(&page.first_visit_at);
                }
                if later(&page.last_visit_at, &row.last_visit_at) {
                    row.last_visit_at = copied(&page.last_visit_at);
                }
                assert(row@ =~= merged_row(old(self)@.pages[place as int], page@));
                self.put_row(place, row);
                remove_words(&mut self.words, id);
                let ghost before = self.words@;
                let w = TextRow { id, title: page.title.clone(), body: page.body.clone() };
                self.words.push(w);
                assert(words_of(self.words@) =~= words_of(before).push(w@));
            },
            None => {
                let id: i64 = self.next_id;
                let mut row: PageRow = make_row(id, page.url.as_str());
                row.title = page.title.clone();
                row.body = page.body.clone();
                row.fetch_status = FetchStatus::Fetched;
                row.starred = page.starred;
                row.first_visit_at = copied(&page.first_visit_at);
                row.last_visit_at = copied(&page.last_visit_at);
                self.add_row(row);
                if page.body.as_str().unicode_len() > 0 {
                    let ghost before = self.words@;
                    let w = TextRow { id, title: page.title.clone(), body: page.body.clone() };
                    self.words.push(w);
                    assert(words_of(self.words@) =~= words_of(before).push(w@));
                }
            },
        }
        assert(self@ =~= page_imported(old(self)@, page@));
    }

    /// Adds the bans of an export.
    fn import_bans(&mut self, list: &Vec<String>) -> (r: u64)
        ensures
            final(self)@ == (Tables {
                banned_hosts: bans_added(old(self)@.banned_hosts, texts(list@)),
                ..old(self)@
            }),
            r == filled_count(texts(list@)),
    {
        let ghost all = texts(list@);
        let mut count: u64 = 0;
        let mut i: usize = 0;
        assert(all.take(0) =~= Seq::empty());
        assert(self@ =~= Tables {
            banned_hosts: bans_added(old(self)@.banned_hosts, all.take(0)),
            ..old(self)@
        });
        while i < list.len()
            invariant
                i <= list@.len(),
                all == texts(list@),
                count <= i,
                count == filled_count(all.take(i as int)),
                self@ == (Tables {
                    banned_hosts: bans_added(old(self)@.banned_hosts, all.take(i as int)),
                    ..old(self)@
                }),
            decreases list@.len() - i,
        {
            let ghost t = all.take(i as int + 1);
            assert(t.drop_last() =~= all.take(i as int));
            assert(t.last() == list@[i as int]@);
            if list[i].as_str().unicode_len() > 0 {
                push_distinct(&mut self.banned_hosts, list[i].as_str());
                count = count + 1;
            }
            i = i + 1;
        }
        assert(all.take(all.len() as int) =~= all);
        count
    }

    /// Brings in an export, and counts the pages and the bans in it that count. Pages elsewhere
    /// than on the web are passed over, and so are empty bans.
    pub fn import_all(&mut self, export: &FullExport) -> (r: (u64, u64))
        requires
            old(self).next_id + export.pages@.len() <= i64::MAX,
        ensures
            final(self)@ == all_imported(
                old(self)@,
                exported(export.pages@),
                texts(export.ban_list@),
            ),
            r.0 == web_pages(exported(export.pages@)),
            r.1 == filled_count(texts(export.ban_list@)),
    {
        let ghost all = exported(export.pages@);
        let mut count: u64 = 0;
        let mut i: usize = 0;
        assert(all.take(0) =~= Seq::empty());
        while i < export.pages.len()
            invariant
                i <= export.pages@.len(),
                all == exported(export.pages@),
                old(self).next_id + export.pages@.len() <= i64::MAX,
                self.next_id <= old(self).next_id + i,
                count <= i,
                count == web_pages(all.take(i as int)),
                self@ == pages_imported(old(self)@, all.take(i as int)),
            decreases export.pages@.len() - i,
        {
            let ghost t = all.take(i as int + 1);
            assert(t.drop_last() =~= all.take(i as int));
            assert(t.last() == export.pages@[i as int]@);
            if web_url(export.pages[i].url.as_str()) {
                let ghost before = self@;
                self.import_page(&export.pages[i]);
                assert(self@.next_id <= before.next_id + 1);
                count = count + 1;
            }
            i = i + 1;
        }
        assert(all.take(all.len() as int) =~= all);
        let bans: u64 = self.import_bans(&export.ban_list);
        (count, bans)
    }

    /// Deletes the pages whose URL holds a text, and counts them.
    pub fn delete_host(&mut self, host: &str) -> (r: u64)
        ensures
            final(self)@ == host_deleted(old(self)@, host@),
            r == old(self)@.pages.len() - final(self)@.pages.len(),
    {
        let ghost all = self@.pages;
        let ghost start = self@.words;
        let n: usize = self.pages.len();
        let mut waiting: Vec<PageRow> = Vec::new();
        waiting.append(&mut self.pages);
        crate::order::reverse(&mut waiting);
        let mut count: u64 = 0;
        let mut i: usize = 0;
        assert(self@.pages =~= pages_without(all.take(0), host@));
        assert(all.take(0) =~= Seq::empty());
        while i < n
            invariant
                i <= n,
                n == all.len(),
                waiting@.len() == n - i,
                forall|k: int|
                    0 <= k < waiting@.len() ==> (#[trigger] waiting@[k])@ == all[n - 1 - k],
                count <= i,
                count + self.pages@.len() == i,
                self@.pages == pages_without(all.take(i as int), host@),
                self@.words == words_without(start, all.take(i as int), host@),
                self@.favicons == old(self)@.favicons,
                self@.banned_hosts == old(self)@.banned_hosts,
                self@.cluster_ignored_domains == old(self)@.cluster_ignored_domains,
                self@.meta == old(self)@.meta,
                self@.next_id == old(self)@.next_id,
            decreases n - i,
        {
            let row: PageRow = waiting.pop().unwrap();
            let ghost t = all.take(i as int + 1);
            assert(t.drop_last() =~= all.take(i as int));
            assert(t.last() == row@);
            if contains(row.url.as_str(), host) {
                remove_words(&mut self.words, row.id);
                count = count + 1;
            } else {
                let ghost before = self.pages@;
                self.pages.push(row);
                assert(rows(self.pages@) =~= rows(before).push(row@));
            }
            i = i + 1;
        }
        assert(all.take(n as int) =~= all);
        assert(self@ =~= host_deleted(old(self)@, host@));
        count
    }

    /// Bans a host: its pages are deleted and counted, and the ban is remembered.
    pub fn ban_host(&mut self, host: &str) -> (r: u64)
        ensures
            final(self)@ == host_banned(old(self)@, host@),
            r == old(self)@.pages.len() - final(self)@.pages.len(),
    {
        push_distinct(&mut self.banned_hosts, host);
        assert(self@ =~= Tables {
            banned_hosts: with_text(old(self)@.banned_hosts, host@),
            ..old(self)@
        });
        self.delete_host(host)
    }
}

} // verus!
