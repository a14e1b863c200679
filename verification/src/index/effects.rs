//! What each change of the index does to the page that it is about, and that it leaves the others.

use vstd::prelude::*;

use crate::config::any_matches;
use crate::index::laws::lemma_without_words;
use crate::index::query::law_the_place_of_a_page;
use crate::index::store::{
    all_imported, all_registered, bans_added, bookmarked, embedding_set, failure_entered,
    filled_count, has_page, host_banned, host_deleted, page_deleted, page_imported, pages_imported,
    pages_without, place_of, registered, star_set, starred_imported, status_set, upserted,
    web_links, web_pages, with_visit, with_visits, without_words, Exported, FetchStatus, Row,
    Tables, Words,
};
use crate::lists::{lemma_picked_none, lemma_picked_one_more, picked};
use crate::order::text_before;
use crate::text::{contains_text, has_prefix};

verus! {

/// A page with this URL is among several.
pub open spec fn there(pages: Seq<Row>, url: Seq<char>) -> bool {
    exists|i: int| 0 <= i < pages.len() && (#[trigger] pages[i]).url == url
}

/// The first page with a URL is as said.
pub open spec fn page_is(pages: Seq<Row>, url: Seq<char>, row: Row) -> bool {
    exists|i: int|
        0 <= i < pages.len() && #[trigger] pages[i] == row && row.url == url && forall|k: int|
            0 <= k < i ==> (#[trigger] pages[k]).url != url
}

/// All pages with other URLs stay where they are, and so does all that is no page; at most one
/// page comes in, at the end.
pub open spec fn leaves_others(t: Tables, after: Tables, url: Seq<char>) -> bool {
    &&& t.pages.len() <= after.pages.len() <= t.pages.len() + 1
    &&& there(t.pages, url) ==> after.pages.len() == t.pages.len()
    &&& forall|i: int|
        0 <= i < t.pages.len() && (#[trigger] t.pages[i]).url != url ==> after.pages[i] == t.pages[i]
    &&& after.favicons == t.favicons
    &&& after.banned_hosts == t.banned_hosts
    &&& after.cluster_ignored_domains == t.cluster_ignored_domains
    &&& after.meta == t.meta
}

proof fn lemma_there(pages: Seq<Row>, url: Seq<char>)
    ensures
        there(pages, url) <==> place_of(pages, url) < pages.len(),
        has_page(pages, url) <==> there(pages, url),
{
    law_the_place_of_a_page(pages, url);
    if there(pages, url) {
        let i = choose|i: int| 0 <= i < pages.len() && (#[trigger] pages[i]).url == url;
        if place_of(pages, url) == pages.len() {
            assert(pages[i].url != url);
        }
    }
}

/// A page in its first place is the page under its URL.
proof fn lemma_page_is(pages: Seq<Row>, url: Seq<char>, at: int)
    requires
        0 <= at < pages.len(),
        pages[at].url == url,
        forall|k: int| 0 <= k < at ==> (#[trigger] pages[k]).url != url,
    ensures
        page_is(pages, url, pages[at]),
{
}

/// A page that came in without more: pending, without title, text, visits, star or failures.
pub open spec fn is_blank_page(row: Row, url: Seq<char>, id: int) -> bool {
    &&& row.id == id
    &&& row.url == url
    &&& row.title.len() == 0
    &&& row.body.len() == 0
    &&& row.fetched_at is None
    &&& row.embedding is None
    &&& row.attempts == 0
    &&& !row.starred
}

/// A page that is written keeps its visits, its star, its embedding and its failures; it is
/// fetched, with the title and the text that are written. Its words replace those it had, and
/// the words of other pages stay.
pub proof fn law_writing_a_page(
    t: Tables,
    url: Seq<char>,
    title: Seq<char>,
    body: Seq<char>,
    now: Seq<char>,
)
    ensures
        ({
            let after = upserted(t, url, title, body, now);
            let was = place_of(t.pages, url);
            &&& leaves_others(t, after, url)
            &&& there(t.pages, url) ==> page_is(
                after.pages,
                url,
                Row {
                    title,
                    body,
                    fetched_at: Some(now),
                    status: FetchStatus::Fetched,
                    ..t.pages[was]
                },
            )
            &&& !there(t.pages, url) ==> {
                let row = after.pages.last();
                &&& page_is(after.pages, url, row)
                &&& row.title == title && row.body == body && row.fetched_at == Some(now)
                &&& row.status is Fetched && row.first_visit_at is None && row.last_visit_at is None
                &&& !row.starred && row.embedding is None && row.attempts == 0 && row.id == t.next_id
            }
            &&& after.words.contains(Words { id: after.pages[was].id, title, body })
            &&& forall|k: int|
                0 <= k < t.words.len() && (#[trigger] t.words[k]).id != after.pages[was].id
                    ==> after.words.contains(t.words[k])
        }),
{
    lemma_there(t.pages, url);
    law_the_place_of_a_page(t.pages, url);
    let after = upserted(t, url, title, body, now);
    let was = place_of(t.pages, url);
    lemma_page_is(after.pages, url, was);
    assert(after.words.last() == Words { id: after.pages[was].id, title, body });
    if was < t.pages.len() {
        let id = t.pages[was].id;
        lemma_without_words(t.words, id);
        let rest = without_words(t.words, id);
        assert forall|k: int| 0 <= k < t.words.len() && (#[trigger] t.words[k]).id != id implies
            after.words.contains(t.words[k]) by {
            let m = choose|m: int| 0 <= m < rest.len() && rest[m] == t.words[k];
            assert(after.words[m] == t.words[k]);
        }
    } else {
        assert forall|k: int| 0 <= k < t.words.len() implies after.words.contains(
            #[trigger] t.words[k],
        ) by {
            assert(after.words[k] == t.words[k]);
        }
    }
}

/// A page that is heard of comes in as pending, at the end; one that is there stays as it is.
pub proof fn law_hearing_of_a_page(t: Tables, url: Seq<char>)
    ensures
        ({
            let after = registered(t, url);
            &&& leaves_others(t, after, url)
            &&& there(t.pages, url) ==> after == t
            &&& !there(t.pages, url) ==> {
                let row = after.pages.last();
                &&& after.pages == t.pages.push(row)
                &&& is_blank_page(row, url, t.next_id)
                &&& row.status is Pending && row.first_visit_at is None && row.last_visit_at is None
                &&& after.words == t.words
            }
        }),
{
    lemma_there(t.pages, url);
}

/// A visit of a page that is not banned is entered: a new page comes in as pending, visited at
/// that time first and last. A page that is there keeps its first visit, or has it then; where
/// the visit is later than the last one it is the last, and the page is fetched again unless it
/// is skipped. Its title, its text, its star and its embedding stay. A visit of a banned page
/// changes nothing.
pub proof fn law_entering_a_visit(t: Tables, url: Seq<char>, at: Seq<char>)
    ensures
        ({
            let after = with_visit(t, url, at);
            let was = place_of(t.pages, url);
            let old_row = t.pages[was];
            let later = match old_row.last_visit_at {
                Some(last) => text_before(last, at),
                None => text_before(""@, at),
            };
            &&& any_matches(url, t.banned_hosts) ==> after == t
            &&& leaves_others(t, after, url)
            &&& after.words == t.words
            &&& !any_matches(url, t.banned_hosts) && !there(t.pages, url) ==> {
                let row = after.pages.last();
                &&& after.pages == t.pages.push(row)
                &&& is_blank_page(row, url, t.next_id)
                &&& row.status is Pending
                &&& row.first_visit_at == Some(at) && row.last_visit_at == Some(at)
            }
            &&& !any_matches(url, t.banned_hosts) && there(t.pages, url) ==> page_is(
                after.pages,
                url,
                Row {
                    first_visit_at: if old_row.first_visit_at is Some {
                        old_row.first_visit_at
                    } else {
                        Some(at)
                    },
                    last_visit_at: if later {
                        Some(at)
                    } else {
                        old_row.last_visit_at
                    },
                    status: if later && !(old_row.status is Skip) {
                        FetchStatus::Pending
                    } else {
                        old_row.status
                    },
                    ..old_row
                },
            )
        }),
{
    lemma_there(t.pages, url);
    law_the_place_of_a_page(t.pages, url);
    let after = with_visit(t, url, at);
    let was = place_of(t.pages, url);
    if was < t.pages.len() && !any_matches(url, t.banned_hosts) {
        lemma_page_is(after.pages, url, was);
    }
}

/// A bookmarked page is starred, is fetched again, and counts as visited now. It keeps its title
/// where none is given, and its first visit where it has one.
pub proof fn law_bookmarking_a_page(t: Tables, url: Seq<char>, title: Seq<char>, now: Seq<char>)
    ensures
        ({
            let after = bookmarked(t, url, title, now);
            let old_row = t.pages[place_of(t.pages, url)];
            &&& leaves_others(t, after, url)
            &&& after.words == t.words
            &&& there(t.pages, url) ==> page_is(
                after.pages,
                url,
                Row {
                    title: if title.len() == 0 {
                        old_row.title
                    } else {
                        title
                    },
                    starred: true,
                    status: FetchStatus::Pending,
                    last_visit_at: Some(now),
                    first_visit_at: if old_row.first_visit_at is Some {
                        old_row.first_visit_at
                    } else {
                        Some(now)
                    },
                    ..old_row
                },
            )
            &&& !there(t.pages, url) ==> {
                let row = after.pages.last();
                &&& after.pages == t.pages.push(row)
                &&& row.url == url && row.title == title && row.starred && row.status is Pending
                &&& row.first_visit_at == Some(now) && row.last_visit_at == Some(now)
                &&& row.body.len() == 0 && row.embedding is None
            }
        }),
{
    lemma_there(t.pages, url);
    law_the_place_of_a_page(t.pages, url);
    let after = bookmarked(t, url, title, now);
    let was = place_of(t.pages, url);
    if was < t.pages.len() {
        lemma_page_is(after.pages, url, was);
    }
}

/// A mark changes that of the page it is set on: its star, its status or its embedding, and
/// nothing else of it. Where the page is not there nothing changes.
pub proof fn law_marking_a_page(
    t: Tables,
    url: Seq<char>,
    starred: bool,
    status: FetchStatus,
    bytes: Seq<u8>,
    max_attempts: u32,
)
    ensures
        ({
            let row = t.pages[place_of(t.pages, url)];
            &&& !there(t.pages, url) ==> star_set(t, url, starred) == t && status_set(t, url, status)
                == t && embedding_set(t, url, bytes) == t && failure_entered(t, url, max_attempts)
                == t
            &&& leaves_others(t, star_set(t, url, starred), url)
            &&& leaves_others(t, status_set(t, url, status), url)
            &&& leaves_others(t, embedding_set(t, url, bytes), url)
            &&& leaves_others(t, failure_entered(t, url, max_attempts), url)
            &&& there(t.pages, url) ==> {
                &&& page_is(star_set(t, url, starred).pages, url, Row { starred, ..row })
                &&& page_is(status_set(t, url, status).pages, url, Row { status, ..row })
                &&& page_is(
                    embedding_set(t, url, bytes).pages,
                    url,
                    Row { embedding: Some(bytes), ..row },
                )
                &&& page_is(
                    failure_entered(t, url, max_attempts).pages,
                    url,
                    Row {
                        attempts: row.attempts + 1,
                        status: if row.attempts + 1 >= max_attempts {
                            FetchStatus::Error
                        } else {
                            row.status
                        },
                        ..row
                    },
                )
            }
        }),
{
    lemma_there(t.pages, url);
    law_the_place_of_a_page(t.pages, url);
    let was = place_of(t.pages, url);
    if was < t.pages.len() {
        lemma_page_is(star_set(t, url, starred).pages, url, was);
        lemma_page_is(status_set(t, url, status).pages, url, was);
        lemma_page_is(embedding_set(t, url, bytes).pages, url, was);
        lemma_page_is(failure_entered(t, url, max_attempts).pages, url, was);
    }
}

/// Deleting a page takes out that page and its words, and leaves all else in its order.
pub proof fn law_deleting_a_page(t: Tables, url: Seq<char>)
    ensures
        ({
            let after = page_deleted(t, url);
            let was = place_of(t.pages, url);
            &&& !there(t.pages, url) ==> after == t
            &&& there(t.pages, url) ==> {
                &&& after.pages.len() == t.pages.len() - 1
                &&& forall|i: int|
                    0 <= i < after.pages.len() ==> #[trigger] after.pages[i] == if i < was {
                        t.pages[i]
                    } else {
                        t.pages[i + 1]
                    }
                &&& forall|k: int|
                    0 <= k < t.words.len() && (#[trigger] t.words[k]).id != t.pages[was].id
                        ==> after.words.contains(t.words[k])
            }
            &&& after.favicons == t.favicons && after.banned_hosts == t.banned_hosts
            &&& after.cluster_ignored_domains == t.cluster_ignored_domains && after.meta == t.meta
        }),
{
    lemma_there(t.pages, url);
    law_the_place_of_a_page(t.pages, url);
    let was = place_of(t.pages, url);
    if was < t.pages.len() {
        lemma_without_words(t.words, t.pages[was].id);
    }
}

/// Deleting a host takes out every page with it in its URL, wherever it stands there, and leaves
/// all others in their order.
pub proof fn law_deleting_a_host(t: Tables, part: Seq<char>)
    ensures
        ({
            let after = host_deleted(t, part);
            &&& picked(
                t.pages.len(),
                after.pages,
                |i: int| !contains_text(t.pages[i].url, part),
                |i: int| t.pages[i],
            )
            &&& after.favicons == t.favicons && after.banned_hosts == t.banned_hosts
            &&& after.cluster_ignored_domains == t.cluster_ignored_domains && after.meta == t.meta
        }),
{
    lemma_pages_left(t.pages, part);
}

proof fn lemma_pages_left(pages: Seq<Row>, part: Seq<char>)
    ensures
        picked(
            pages.len(),
            pages_without(pages, part),
            |i: int| !contains_text(pages[i].url, part),
            |i: int| pages[i],
        ),
    decreases pages.len(),
{
    let chosen = |i: int| !contains_text(pages[i].url, part);
    let gives = |i: int| pages[i];
    if pages.len() == 0 {
        lemma_picked_none(chosen, gives);
    } else {
        let init = pages.drop_last();
        lemma_pages_left(init, part);
        lemma_picked_one_more(
            init.len(),
            pages_without(init, part),
            |i: int| !contains_text(init[i].url, part),
            |i: int| init[i],
            pages_without(pages, part),
            chosen,
            gives,
        );
    }
}

/// Banning a host enters the ban, once, behind those that are there, and deletes the host.
pub proof fn law_banning_a_host(t: Tables, host: Seq<char>)
    ensures
        ({
            let after = host_banned(t, host);
            &&& after.banned_hosts == if t.banned_hosts.contains(host) {
                t.banned_hosts
            } else {
                t.banned_hosts.push(host)
            }
            &&& picked(
                t.pages.len(),
                after.pages,
                |i: int| !contains_text(t.pages[i].url, host),
                |i: int| t.pages[i],
            )
            &&& after.favicons == t.favicons && after.meta == t.meta
            &&& after.cluster_ignored_domains == t.cluster_ignored_domains
        }),
{
    lemma_pages_left(t.pages, host);
}

/// After URLs are heard of, each of them is in the index, and all that was there is there as it
/// was.
pub proof fn law_all_that_is_heard_of_is_there(t: Tables, urls: Seq<Seq<char>>)
    ensures
        ({
            let after = all_registered(t, urls);
            &&& t.pages.is_prefix_of(after.pages)
            &&& forall|i: int| 0 <= i < urls.len() ==> there(after.pages, #[trigger] urls[i])
            &&& forall|k: int|
                t.pages.len() <= k < after.pages.len() ==> urls.contains(
                    (#[trigger] after.pages[k]).url,
                ) && after.pages[k].status is Pending
            &&& after.words == t.words
        }),
    decreases urls.len(),
{
    let after = all_registered(t, urls);
    if urls.len() > 0 {
        let init = urls.drop_last();
        law_all_that_is_heard_of_is_there(t, init);
        let before = all_registered(t, init);
        law_hearing_of_a_page(before, urls.last());
        if !there(before.pages, urls.last()) {
            assert(after.pages[before.pages.len() as int].url == urls.last());
        }
        assert(before.pages.is_prefix_of(after.pages));
        assert(t.pages.is_prefix_of(after.pages));
        assert forall|i: int| 0 <= i < urls.len() implies there(after.pages, #[trigger] urls[i]) by {
            if i < init.len() {
                assert(there(before.pages, init[i]));
                let k = choose|k: int|
                    0 <= k < before.pages.len() && (#[trigger] before.pages[k]).url == init[i];
                assert(after.pages[k].url == urls[i]);
            }
        }
        assert forall|k: int| t.pages.len() <= k < after.pages.len() implies urls.contains(
            (#[trigger] after.pages[k]).url,
        ) && after.pages[k].status is Pending by {
            if k < before.pages.len() {
                assert(after.pages[k] == before.pages[k]);
                let i = choose|i: int| 0 <= i < init.len() && init[i] == before.pages[k].url;
                assert(urls[i] == after.pages[k].url);
            } else {
                assert(urls[urls.len() - 1] == after.pages[k].url);
            }
        }
    }
}

/// After visits are entered, every page of them that is not banned is in the index, visited no
/// earlier than each of its visits says; no page has gone.
pub proof fn law_every_visit_is_kept(t: Tables, visits: Seq<(Seq<char>, Seq<char>)>)
    ensures
        ({
            let after = with_visits(t, visits);
            &&& after.banned_hosts == t.banned_hosts
            &&& t.pages.len() <= after.pages.len()
            &&& forall|i: int|
                0 <= i < t.pages.len() ==> (#[trigger] after.pages[i]).url == t.pages[i].url
                    && after.pages[i].body == t.pages[i].body && after.pages[i].starred
                    == t.pages[i].starred
            &&& forall|i: int|
                0 <= i < visits.len() && !any_matches((#[trigger] visits[i]).0, t.banned_hosts)
                    ==> there(after.pages, visits[i].0)
            &&& after.words == t.words
        }),
    decreases visits.len(),
{
    if visits.len() > 0 {
        let init = visits.drop_last();
        law_every_visit_is_kept(t, init);
        let before = with_visits(t, init);
        let after = with_visits(t, visits);
        let (url, at) = visits.last();
        law_entering_a_visit(before, url, at);
        lemma_there(before.pages, url);
        law_the_place_of_a_page(before.pages, url);
        let was = place_of(before.pages, url);
        assert forall|i: int| 0 <= i < before.pages.len() implies (#[trigger] after.pages[i]).url
            == before.pages[i].url && after.pages[i].body == before.pages[i].body
            && after.pages[i].starred == before.pages[i].starred by {}
        assert forall|i: int|
            0 <= i < visits.len() && !any_matches(
                (#[trigger] visits[i]).0,
                t.banned_hosts,
            ) implies there(after.pages, visits[i].0) by {
            if i < init.len() {
                assert(there(before.pages, init[i].0));
                let k = choose|k: int|
                    0 <= k < before.pages.len() && (#[trigger] before.pages[k]).url == init[i].0;
                assert(after.pages[k].url == visits[i].0);
            } else {
                assert(after.pages[was].url == url);
            }
        }
    }
}

/// After links are brought in, every page of them on the web is in the index and starred, and as
/// many are counted.
pub proof fn law_every_link_on_the_web_is_starred(
    t: Tables,
    items: Seq<(Seq<char>, Seq<char>)>,
    now: Seq<char>,
    i: int,
)
    requires
        0 <= i < items.len(),
        has_prefix(items[i].0, "http://"@) || has_prefix(items[i].0, "https://"@),
    ensures
        there(starred_imported(t, items, now).pages, items[i].0),
        starred_under(starred_imported(t, items, now).pages, items[i].0),
    decreases items.len(),
{
    let init = items.drop_last();
    let before = starred_imported(t, init, now);
    let after = starred_imported(t, items, now);
    let (url, title) = items.last();
    law_bookmarking_a_page(before, url, title, now);
    lemma_there(before.pages, url);
    law_the_place_of_a_page(before.pages, url);
    let was = place_of(before.pages, url);
    if i < init.len() {
        assert(init[i] == items[i]);
        law_every_link_on_the_web_is_starred(t, init, now, i);
        let k = choose|k: int|
            0 <= k < before.pages.len() && (#[trigger] before.pages[k]).url == items[i].0
                && before.pages[k].starred;
        assert(after.pages[k].url == items[i].0 && after.pages[k].starred);
    } else {
        assert(after.pages[was].url == url && after.pages[was].starred);
    }
}

/// A starred page with this URL is among several.
pub open spec fn starred_under(pages: Seq<Row>, url: Seq<char>) -> bool {
    exists|k: int| 0 <= k < pages.len() && (#[trigger] pages[k]).url == url && pages[k].starred
}

/// What is counted of an import is what is on the web, and of its bans those that are not empty.
pub proof fn law_imports_are_counted(
    items: Seq<(Seq<char>, Seq<char>)>,
    pages: Seq<Exported>,
    bans: Seq<Seq<char>>,
)
    ensures
        web_links(items) == items.filter(
            |x: (Seq<char>, Seq<char>)|
                has_prefix(x.0, "http://"@) || has_prefix(x.0, "https://"@),
        ).len(),
        web_pages(pages) == pages.filter(
            |p: Exported| has_prefix(p.url, "http://"@) || has_prefix(p.url, "https://"@),
        ).len(),
        filled_count(bans) == bans.filter(|b: Seq<char>| b.len() > 0).len(),
    decreases items.len() + pages.len() + bans.len(),
{
    reveal(Seq::filter);
    if items.len() > 0 {
        law_imports_are_counted(items.drop_last(), pages, bans);
    }
    if pages.len() > 0 {
        law_imports_are_counted(items, pages.drop_last(), bans);
    }
    if bans.len() > 0 {
        law_imports_are_counted(items, pages, bans.drop_last());
    }
}

/// A page on the web that is brought in is fetched, with its title and text. Where the index has
/// it, it keeps its star and its first visit, and has the later of both last visits; where it
/// has not, it comes in as it was. What is not on the web does not come in.
pub proof fn law_bringing_in_a_page(t: Tables, page: Exported)
    ensures
        ({
            let after = page_imported(t, page);
            let web = has_prefix(page.url, "http://"@) || has_prefix(page.url, "https://"@);
            let row = t.pages[place_of(t.pages, page.url)];
            let later = match (page.last_visit_at, row.last_visit_at) {
                (Some(new), Some(last)) => text_before(last, new),
                (Some(new), None) => text_before(""@, new),
                _ => false,
            };
            &&& !web ==> after == t
            &&& leaves_others(t, after, page.url)
            &&& web && there(t.pages, page.url) ==> page_is(
                after.pages,
                page.url,
                Row {
                    title: page.title,
                    body: page.body,
                    status: FetchStatus::Fetched,
                    starred: row.starred || page.starred,
                    first_visit_at: if row.first_visit_at is Some {
                        row.first_visit_at
                    } else {
                        page.first_visit_at
                    },
                    last_visit_at: if later {
                        page.last_visit_at
                    } else {
                        row.last_visit_at
                    },
                    ..row
                },
            )
            &&& web && !there(t.pages, page.url) ==> {
                let new = after.pages.last();
                &&& after.pages == t.pages.push(new)
                &&& new.url == page.url && new.title == page.title && new.body == page.body
                &&& new.status is Fetched && new.starred == page.starred
                &&& new.first_visit_at == page.first_visit_at
                &&& new.last_visit_at == page.last_visit_at
                &&& page.body.len() > 0 ==> after.words == t.words.push(
                    Words { id: new.id, title: page.title, body: page.body },
                )
            }
        }),
{
    lemma_there(t.pages, page.url);
    law_the_place_of_a_page(t.pages, page.url);
    let after = page_imported(t, page);
    let was = place_of(t.pages, page.url);
    if was < t.pages.len() && (has_prefix(page.url, "http://"@) || has_prefix(
        page.url,
        "https://"@,
    )) {
        lemma_page_is(after.pages, page.url, was);
    }
}

/// After an export is brought in, every page of it on the web is in the index, every ban of it
/// that is not empty is in force, and no page and no ban has gone.
pub proof fn law_a_whole_export_comes_in(
    t: Tables,
    pages: Seq<Exported>,
    bans: Seq<Seq<char>>,
)
    ensures
        ({
            let after = all_imported(t, pages, bans);
            &&& forall|i: int|
                0 <= i < pages.len() && (has_prefix((#[trigger] pages[i]).url, "http://"@)
                    || has_prefix(pages[i].url, "https://"@)) ==> there(after.pages, pages[i].url)
            &&& forall|i: int|
                0 <= i < t.pages.len() ==> (#[trigger] after.pages[i]).url == t.pages[i].url
            &&& forall|b: Seq<char>|
                #[trigger] after.banned_hosts.contains(b) <==> t.banned_hosts.contains(b) || (
                b.len() > 0 && bans.contains(b))
        }),
{
    lemma_pages_come_in(t, pages);
    lemma_bans_come_in(t.banned_hosts, bans);
    lemma_bans_stay(t, pages);
}

proof fn lemma_bans_stay(t: Tables, pages: Seq<Exported>)
    ensures
        pages_imported(t, pages).banned_hosts == t.banned_hosts,
    decreases pages.len(),
{
    if pages.len() > 0 {
        lemma_bans_stay(t, pages.drop_last());
    }
}

proof fn lemma_pages_come_in(t: Tables, pages: Seq<Exported>)
    ensures
        ({
            let after = pages_imported(t, pages);
            &&& t.pages.len() <= after.pages.len()
            &&& forall|i: int|
                0 <= i < pages.len() && (has_prefix((#[trigger] pages[i]).url, "http://"@)
                    || has_prefix(pages[i].url, "https://"@)) ==> there(after.pages, pages[i].url)
            &&& forall|i: int|
                0 <= i < t.pages.len() ==> (#[trigger] after.pages[i]).url == t.pages[i].url
        }),
    decreases pages.len(),
{
    if pages.len() > 0 {
        let init = pages.drop_last();
        lemma_pages_come_in(t, init);
        let before = pages_imported(t, init);
        let after = pages_imported(t, pages);
        let page = pages.last();
        law_bringing_in_a_page(before, page);
        lemma_there(before.pages, page.url);
        law_the_place_of_a_page(before.pages, page.url);
        let was = place_of(before.pages, page.url);
        assert forall|i: int| 0 <= i < before.pages.len() implies (#[trigger] after.pages[i]).url
            == before.pages[i].url by {}
        assert forall|i: int|
            0 <= i < pages.len() && (has_prefix((#[trigger] pages[i]).url, "http://"@) || has_prefix(
                pages[i].url,
                "https://"@,
            )) implies there(after.pages, pages[i].url) by {
            if i < init.len() {
                assert(there(before.pages, init[i].url));
                let k = choose|k: int|
                    0 <= k < before.pages.len() && (#[trigger] before.pages[k]).url == init[i].url;
                assert(after.pages[k].url == pages[i].url);
            } else {
                assert(after.pages[was].url == page.url);
            }
        }
    }
}

proof fn lemma_bans_come_in(list: Seq<Seq<char>>, more: Seq<Seq<char>>)
    ensures
        forall|b: Seq<char>|
            #[trigger] bans_added(list, more).contains(b) <==> list.contains(b) || (b.len() > 0
                && more.contains(b)),
    decreases more.len(),
{
    if more.len() > 0 {
        let init = more.drop_last();
        lemma_bans_come_in(list, init);
        let before = bans_added(list, init);
        let after = bans_added(list, more);
        assert forall|b: Seq<char>| #[trigger] after.contains(b) <==> list.contains(b) || (b.len()
            > 0 && more.contains(b)) by {
            if after.contains(b) {
                let k = choose|k: int| 0 <= k < after.len() && after[k] == b;
                if k < before.len() {
                    assert(before[k] == b);
                    assert(before.contains(b));
                    if init.contains(b) {
                        let i = choose|i: int| 0 <= i < init.len() && init[i] == b;
                        assert(more[i] == b);
                    }
                } else {
                    assert(more[more.len() - 1] == b);
                }
            }
            if before.contains(b) {
                let k = choose|k: int| 0 <= k < before.len() && before[k] == b;
                assert(after[k] == b);
            }
            if b.len() > 0 && more.contains(b) {
                let i = choose|i: int| 0 <= i < more.len() && more[i] == b;
                if i < init.len() {
                    assert(init[i] == b);
                } else if !before.contains(b) {
                    assert(after[after.len() - 1] == b);
                }
            }
        }
    }
}

} // verus!
