//! What holds of the index whatever is done to it.

use vstd::prelude::*;

use crate::config::{any_matches, ban_matches};
use crate::index::store::{
    all_imported, all_registered, bans_added, bookmarked, consistent, embedding_set,
    failure_entered, has_page, has_text, host_banned, host_deleted, is_later, is_web_url,
    lemma_place_of, lemma_place_unique, merged_row, new_row, page_deleted, pages_imported,
    pages_without, place_of, reworded, star_set, starred_imported, status_set, upserted,
    visited_row, with_text, with_visit, with_visits, without_words, words_without, Exported,
    FetchStatus, Icon, Row, Tables, Words,
};
use crate::index::query::{icon_place, icon_stored, value_set, without_text};
use crate::index::search::export_of;
use crate::text::contains_text;

verus! {

/// What taking a page out of the full-text table leaves: the entries of the other pages.
pub proof fn lemma_without_words(list: Seq<Words>, id: int)
    ensures
        forall|k: int|
            0 <= k < without_words(list, id).len() ==> (#[trigger] without_words(list, id)[k]).id
                != id && list.contains(without_words(list, id)[k]),
        forall|k: int|
            0 <= k < list.len() && (#[trigger] list[k]).id != id ==> without_words(
                list,
                id,
            ).contains(list[k]),
        (forall|i: int, j: int|
            0 <= i < j < list.len() ==> (#[trigger] list[i]).id != (#[trigger] list[j]).id) ==> (
        forall|i: int, j: int|
            0 <= i < j < without_words(list, id).len() ==> (#[trigger] without_words(
                list,
                id,
            )[i]).id != (#[trigger] without_words(list, id)[j]).id),
    decreases list.len(),
{
    if list.len() > 0 {
        let init = list.drop_last();
        lemma_without_words(init, id);
        let before = without_words(init, id);
        let now = without_words(list, id);
        assert forall|k: int| 0 <= k < now.len() implies (#[trigger] now[k]).id != id
            && list.contains(now[k]) by {
            if k < before.len() {
                assert(now[k] == before[k]);
                assert(init.contains(before[k]));
                let m = choose|m: int| 0 <= m < init.len() && init[m] == before[k];
                assert(list[m] == now[k]);
            } else {
                assert(list[list.len() - 1] == now[k]);
            }
        }
        assert forall|k: int| 0 <= k < list.len() && (#[trigger] list[k]).id != id implies now.contains(
            list[k],
        ) by {
            if k < init.len() {
                assert(init[k] == list[k]);
                assert(before.contains(init[k]));
                let m = choose|m: int| 0 <= m < before.len() && before[m] == init[k];
                assert(now[m] == list[k]);
            } else {
                assert(now[now.len() - 1] == list[k]);
            }
        }
        if forall|i: int, j: int|
            0 <= i < j < list.len() ==> (#[trigger] list[i]).id != (#[trigger] list[j]).id {
            assert forall|i: int, j: int| 0 <= i < j < init.len() implies (#[trigger] init[i]).id
                != (#[trigger] init[j]).id by {
                assert(list[i].id != list[j].id);
            }
            assert forall|i: int, j: int| 0 <= i < j < now.len() implies (#[trigger] now[i]).id != (
            #[trigger] now[j]).id by {
                if j < before.len() {
                    assert(before[i].id != before[j].id);
                } else {
                    assert(now[i] == before[i]);
                    assert(init.contains(before[i]));
                    let m = choose|m: int| 0 <= m < init.len() && init[m] == before[i];
                    assert(list[m].id != list[list.len() - 1].id);
                }
            }
        }
    }
}

/// A page changes, but neither its number, its URL nor its text.
proof fn lemma_row_changed(t: Tables, at: int, row: Row)
    requires
        consistent(t),
        0 <= at < t.pages.len(),
        row.id == t.pages[at].id,
        row.url == t.pages[at].url,
        row.body == t.pages[at].body,
    ensures
        consistent(Tables { pages: t.pages.update(at, row), ..t }),
{
    let now = Tables { pages: t.pages.update(at, row), ..t };
    assert forall|i: int, j: int| 0 <= i < j < now.pages.len() implies (#[trigger] now.pages[i]).url
        != (#[trigger] now.pages[j]).url by {
        assert(t.pages[i].url != t.pages[j].url);
    }
    assert forall|i: int, j: int| 0 <= i < j < now.pages.len() implies (#[trigger] now.pages[i]).id
        != (#[trigger] now.pages[j]).id by {
        assert(t.pages[i].id != t.pages[j].id);
    }
    assert forall|i: int| 0 <= i < now.pages.len() implies (#[trigger] now.pages[i]).id
        < now.next_id by {
        assert(t.pages[i].id < t.next_id);
    }
    assert forall|k: int| 0 <= k < now.words.len() implies has_text(
        now.pages,
        #[trigger] now.words[k],
    ) by {
        assert(has_text(t.pages, t.words[k]));
        let i = choose|i: int|
            0 <= i < t.pages.len() && (#[trigger] t.pages[i]).id == t.words[k].id
                && t.pages[i].body == t.words[k].body;
        assert(now.pages[i].id == now.words[k].id);
    }
}

/// A page changes with its text, and is entered anew in the full-text table.
proof fn lemma_row_reworded(t: Tables, at: int, row: Row)
    requires
        consistent(t),
        0 <= at < t.pages.len(),
        row.id == t.pages[at].id,
        row.url == t.pages[at].url,
    ensures
        consistent(
            Tables {
                pages: t.pages.update(at, row),
                words: reworded(t.words, row.id, row.title, row.body),
                ..t
            },
        ),
{
    let now = Tables {
        pages: t.pages.update(at, row),
        words: reworded(t.words, row.id, row.title, row.body),
        ..t
    };
    lemma_without_words(t.words, row.id);
    let rest = without_words(t.words, row.id);
    assert forall|i: int, j: int| 0 <= i < j < now.pages.len() implies (#[trigger] now.pages[i]).url
        != (#[trigger] now.pages[j]).url by {
        assert(t.pages[i].url != t.pages[j].url);
    }
    assert forall|i: int, j: int| 0 <= i < j < now.pages.len() implies (#[trigger] now.pages[i]).id
        != (#[trigger] now.pages[j]).id by {
        assert(t.pages[i].id != t.pages[j].id);
    }
    assert forall|i: int| 0 <= i < now.pages.len() implies (#[trigger] now.pages[i]).id
        < now.next_id by {
        assert(t.pages[i].id < t.next_id);
    }
    assert forall|i: int, j: int| 0 <= i < j < now.words.len() implies (#[trigger] now.words[i]).id
        != (#[trigger] now.words[j]).id by {
        if j < rest.len() {
            assert(rest[i].id != rest[j].id);
        } else {
            assert(now.words[i] == rest[i]);
        }
    }
    assert forall|k: int| 0 <= k < now.words.len() implies has_text(
        now.pages,
        #[trigger] now.words[k],
    ) by {
        if k < rest.len() {
            assert(now.words[k] == rest[k]);
            assert(t.words.contains(rest[k]));
            let m = choose|m: int| 0 <= m < t.words.len() && t.words[m] == rest[k];
            assert(has_text(t.pages, t.words[m]));
            let i = choose|i: int|
                0 <= i < t.pages.len() && (#[trigger] t.pages[i]).id == t.words[m].id
                    && t.pages[i].body == t.words[m].body;
            assert(i != at);
            assert(now.pages[i].id == now.words[k].id);
        } else {
            assert(now.pages[at].id == now.words[k].id);
        }
    }
}

/// A new page comes in, with or without an entry in the full-text table.
proof fn lemma_row_added(t: Tables, row: Row, worded: bool)
    requires
        consistent(t),
        row.id == t.next_id,
        !has_page(t.pages, row.url),
    ensures
        consistent(
            Tables {
                pages: t.pages.push(row),
                words: if worded {
                    t.words.push(Words { id: row.id, title: row.title, body: row.body })
                } else {
                    t.words
                },
                next_id: t.next_id + 1,
                ..t
            },
        ),
{
    let w = Words { id: row.id, title: row.title, body: row.body };
    let now = Tables {
        pages: t.pages.push(row),
        words: if worded {
            t.words.push(w)
        } else {
            t.words
        },
        next_id: t.next_id + 1,
        ..t
    };
    lemma_place_of(t.pages, row.url);
    assert forall|i: int, j: int| 0 <= i < j < now.pages.len() implies (#[trigger] now.pages[i]).url
        != (#[trigger] now.pages[j]).url by {
        if j < t.pages.len() {
            assert(t.pages[i].url != t.pages[j].url);
        } else {
            assert(t.pages[i].url != row.url);
        }
    }
    assert forall|i: int, j: int| 0 <= i < j < now.pages.len() implies (#[trigger] now.pages[i]).id
        != (#[trigger] now.pages[j]).id by {
        if j < t.pages.len() {
            assert(t.pages[i].id != t.pages[j].id);
        } else {
            assert(t.pages[i].id < t.next_id);
        }
    }
    assert forall|i: int| 0 <= i < now.pages.len() implies (#[trigger] now.pages[i]).id
        < now.next_id by {
        if i < t.pages.len() {
            assert(t.pages[i].id < t.next_id);
        }
    }
    assert forall|k: int| 0 <= k < t.words.len() implies (#[trigger] t.words[k]).id < t.next_id
        && has_text(now.pages, t.words[k]) by {
        assert(has_text(t.pages, t.words[k]));
        let i = choose|i: int|
            0 <= i < t.pages.len() && (#[trigger] t.pages[i]).id == t.words[k].id
                && t.pages[i].body == t.words[k].body;
        assert(t.pages[i].id < t.next_id);
        assert(now.pages[i].id == t.words[k].id);
    }
    assert forall|i: int, j: int| 0 <= i < j < now.words.len() implies (#[trigger] now.words[i]).id
        != (#[trigger] now.words[j]).id by {
        if j < t.words.len() {
            assert(t.words[i].id != t.words[j].id);
        } else {
            assert(now.words[i] == t.words[i]);
        }
    }
    assert forall|k: int| 0 <= k < now.words.len() implies has_text(
        now.pages,
        #[trigger] now.words[k],
    ) by {
        if k < t.words.len() {
            assert(now.words[k] == t.words[k]);
        } else {
            assert(now.pages[t.pages.len() as int].id == now.words[k].id);
        }
    }
}

/// Entering the text of a page keeps the tables consistent.
pub proof fn law_upsert_keeps_consistent(
    t: Tables,
    url: Seq<char>,
    title: Seq<char>,
    body: Seq<char>,
    now: Seq<char>,
)
    requires
        consistent(t),
    ensures
        consistent(upserted(t, url, title, body, now)),
{
    lemma_place_of(t.pages, url);
    let at = place_of(t.pages, url);
    if at < t.pages.len() {
        let row = Row {
            title,
            body,
            fetched_at: Some(now),
            status: FetchStatus::Fetched,
            ..t.pages[at]
        };
        lemma_row_reworded(t, at, row);
    } else {
        let row = Row {
            title,
            body,
            fetched_at: Some(now),
            status: FetchStatus::Fetched,
            ..new_row(t.next_id, url)
        };
        lemma_row_added(t, row, true);
    }
}

/// Hearing of URLs keeps the tables consistent.
pub proof fn law_registering_keeps_consistent(t: Tables, urls: Seq<Seq<char>>)
    requires
        consistent(t),
    ensures
        consistent(all_registered(t, urls)),
    decreases urls.len(),
{
    if urls.len() > 0 {
        law_registering_keeps_consistent(t, urls.drop_last());
        let before = all_registered(t, urls.drop_last());
        if !has_page(before.pages, urls.last()) {
            lemma_row_added(before, new_row(before.next_id, urls.last()), false);
        }
    }
}

/// Entering visits keeps the tables consistent.
pub proof fn law_visits_keep_consistent(t: Tables, visits: Seq<(Seq<char>, Seq<char>)>)
    requires
        consistent(t),
    ensures
        consistent(with_visits(t, visits)),
    decreases visits.len(),
{
    if visits.len() > 0 {
        law_visits_keep_consistent(t, visits.drop_last());
        let before = with_visits(t, visits.drop_last());
        let url = visits.last().0;
        let at = visits.last().1;
        lemma_place_of(before.pages, url);
        let place = place_of(before.pages, url);
        if !any_matches(url, before.banned_hosts) {
            if place < before.pages.len() {
                lemma_row_changed(before, place, visited_row(before.pages[place], at));
            } else {
                let row = Row {
                    first_visit_at: Some(at),
                    last_visit_at: Some(at),
                    ..new_row(before.next_id, url)
                };
                lemma_row_added(before, row, false);
            }
        }
    }
}

/// Starring a page keeps the tables consistent.
pub proof fn law_bookmark_keeps_consistent(
    t: Tables,
    url: Seq<char>,
    title: Seq<char>,
    now: Seq<char>,
)
    requires
        consistent(t),
    ensures
        consistent(bookmarked(t, url, title, now)),
{
    lemma_place_of(t.pages, url);
    let place = place_of(t.pages, url);
    if place < t.pages.len() {
        lemma_row_changed(t, place, bookmarked(t, url, title, now).pages[place]);
    } else {
        let row = Row {
            title,
            starred: true,
            first_visit_at: Some(now),
            last_visit_at: Some(now),
            ..new_row(t.next_id, url)
        };
        lemma_row_added(t, row, false);
    }
}

/// Starring a list of links keeps the tables consistent.
pub proof fn law_starred_import_keeps_consistent(
    t: Tables,
    items: Seq<(Seq<char>, Seq<char>)>,
    now: Seq<char>,
)
    requires
        consistent(t),
    ensures
        consistent(starred_imported(t, items, now)),
    decreases items.len(),
{
    if items.len() > 0 {
        law_starred_import_keeps_consistent(t, items.drop_last(), now);
        let before = starred_imported(t, items.drop_last(), now);
        law_bookmark_keeps_consistent(before, items.last().0, items.last().1, now);
    }
}

/// Setting the star, the status or the embedding of a page, and entering a failure, keep the
/// tables consistent.
pub proof fn law_marks_keep_consistent(
    t: Tables,
    url: Seq<char>,
    starred: bool,
    status: FetchStatus,
    bytes: Seq<u8>,
    max_attempts: u32,
)
    requires
        consistent(t),
    ensures
        consistent(star_set(t, url, starred)),
        consistent(status_set(t, url, status)),
        consistent(embedding_set(t, url, bytes)),
        consistent(failure_entered(t, url, max_attempts)),
{
    lemma_place_of(t.pages, url);
    let place = place_of(t.pages, url);
    if place < t.pages.len() {
        lemma_row_changed(t, place, star_set(t, url, starred).pages[place]);
        lemma_row_changed(t, place, status_set(t, url, status).pages[place]);
        lemma_row_changed(t, place, embedding_set(t, url, bytes).pages[place]);
        lemma_row_changed(t, place, failure_entered(t, url, max_attempts).pages[place]);
    }
}

/// Deleting a page keeps the tables consistent.
pub proof fn law_deleting_keeps_consistent(t: Tables, url: Seq<char>)
    requires
        consistent(t),
    ensures
        consistent(page_deleted(t, url)),
{
    lemma_place_of(t.pages, url);
    let at = place_of(t.pages, url);
    if at < t.pages.len() {
        let now = page_deleted(t, url);
        let id = t.pages[at].id;
        lemma_without_words(t.words, id);
        assert forall|i: int| 0 <= i < now.pages.len() implies (#[trigger] now.pages[i]) == t.pages[if i
            < at {
            i
        } else {
            i + 1
        }] by {}
        assert forall|i: int, j: int| 0 <= i < j < now.pages.len() implies (
        #[trigger] now.pages[i]).url != (#[trigger] now.pages[j]).url && now.pages[i].id
            != now.pages[j].id by {
            let a = if i < at {
                i
            } else {
                i + 1
            };
            let b = if j < at {
                j
            } else {
                j + 1
            };
            assert(t.pages[a].url != t.pages[b].url);
            assert(t.pages[a].id != t.pages[b].id);
        }
        assert forall|i: int| 0 <= i < now.pages.len() implies (#[trigger] now.pages[i]).id
            < now.next_id by {
            let a = if i < at {
                i
            } else {
                i + 1
            };
            assert(t.pages[a].id < t.next_id);
        }
        assert forall|k: int| 0 <= k < now.words.len() implies has_text(
            now.pages,
            #[trigger] now.words[k],
        ) by {
            assert(t.words.contains(now.words[k]));
            let m = choose|m: int| 0 <= m < t.words.len() && t.words[m] == now.words[k];
            assert(has_text(t.pages, t.words[m]));
            let i = choose|i: int|
                0 <= i < t.pages.len() && (#[trigger] t.pages[i]).id == t.words[m].id
                    && t.pages[i].body == t.words[m].body;
            assert(i != at);
            let b = if i < at {
                i
            } else {
                i - 1
            };
            assert(now.pages[b] == t.pages[i]);
        }
    }
}

/// What deleting pages by a part of their URL leaves of the pages.
proof fn lemma_pages_without(pages: Seq<Row>, part: Seq<char>)
    ensures
        forall|k: int|
            0 <= k < pages_without(pages, part).len() ==> !contains_text(
                (#[trigger] pages_without(pages, part)[k]).url,
                part,
            ) && pages.contains(pages_without(pages, part)[k]),
        forall|k: int|
            0 <= k < pages.len() && !contains_text((#[trigger] pages[k]).url, part)
                ==> pages_without(pages, part).contains(pages[k]),
        pages_without(pages, part).len() <= pages.len(),
    decreases pages.len(),
{
    if pages.len() > 0 {
        let init = pages.drop_last();
        lemma_pages_without(init, part);
        let before = pages_without(init, part);
        let now = pages_without(pages, part);
        assert forall|k: int| 0 <= k < now.len() implies !contains_text(
            (#[trigger] now[k]).url,
            part,
        ) && pages.contains(now[k]) by {
            if k < before.len() {
                assert(now[k] == before[k]);
                assert(init.contains(before[k]));
                let m = choose|m: int| 0 <= m < init.len() && init[m] == before[k];
                assert(pages[m] == now[k]);
            } else {
                assert(pages[pages.len() - 1] == now[k]);
            }
        }
        assert forall|k: int|
            0 <= k < pages.len() && !contains_text((#[trigger] pages[k]).url, part) implies now.contains(
            pages[k],
        ) by {
            if k < init.len() {
                assert(init[k] == pages[k]);
                assert(before.contains(init[k]));
                let m = choose|m: int| 0 <= m < before.len() && before[m] == init[k];
                assert(now[m] == pages[k]);
            } else {
                assert(now[now.len() - 1] == pages[k]);
            }
        }
    }
}

/// No two pages that are left have the same URL or number.
proof fn lemma_pages_without_distinct(pages: Seq<Row>, part: Seq<char>)
    requires
        forall|i: int, j: int|
            0 <= i < j < pages.len() ==> (#[trigger] pages[i]).url != (#[trigger] pages[j]).url,
        forall|i: int, j: int|
            0 <= i < j < pages.len() ==> (#[trigger] pages[i]).id != (#[trigger] pages[j]).id,
    ensures
        forall|i: int, j: int|
            0 <= i < j < pages_without(pages, part).len() ==> (#[trigger] pages_without(
                pages,
                part,
            )[i]).url != (#[trigger] pages_without(pages, part)[j]).url && pages_without(
                pages,
                part,
            )[i].id != pages_without(pages, part)[j].id,
    decreases pages.len(),
{
    if pages.len() > 0 {
        let init = pages.drop_last();
        assert forall|i: int, j: int| 0 <= i < j < init.len() implies (#[trigger] init[i]).url != (
        #[trigger] init[j]).url && init[i].id != init[j].id by {
            assert(pages[i].url != pages[j].url);
            assert(pages[i].id != pages[j].id);
        }
        lemma_pages_without_distinct(init, part);
        lemma_pages_without(init, part);
        let before = pages_without(init, part);
        let now = pages_without(pages, part);
        assert forall|i: int, j: int| 0 <= i < j < now.len() implies (#[trigger] now[i]).url != (
        #[trigger] now[j]).url && now[i].id != now[j].id by {
            if j < before.len() {
                assert(before[i].url != before[j].url);
            } else {
                assert(now[i] == before[i]);
                assert(init.contains(before[i]));
                let m = choose|m: int| 0 <= m < init.len() && init[m] == before[i];
                assert(pages[m].url != pages[pages.len() - 1].url);
                assert(pages[m].id != pages[pages.len() - 1].id);
            }
        }
    }
}

/// What deleting pages by a part of their URL leaves of the full-text table.
proof fn lemma_words_without(words: Seq<Words>, pages: Seq<Row>, part: Seq<char>)
    requires
        forall|i: int, j: int|
            0 <= i < j < words.len() ==> (#[trigger] words[i]).id != (#[trigger] words[j]).id,
    ensures
        forall|k: int|
            0 <= k < words_without(words, pages, part).len() ==> words.contains(
                #[trigger] words_without(words, pages, part)[k],
            ),
        forall|k: int, i: int|
            0 <= k < words_without(words, pages, part).len() && 0 <= i < pages.len()
                && contains_text((#[trigger] pages[i]).url, part) ==> (#[trigger] words_without(
                words,
                pages,
                part,
            )[k]).id != pages[i].id,
        forall|i: int, j: int|
            0 <= i < j < words_without(words, pages, part).len() ==> (#[trigger] words_without(
                words,
                pages,
                part,
            )[i]).id != (#[trigger] words_without(words, pages, part)[j]).id,
    decreases pages.len(),
{
    if pages.len() > 0 {
        let init = pages.drop_last();
        lemma_words_without(words, init, part);
        let before = words_without(words, init, part);
        let now = words_without(words, pages, part);
        lemma_without_words(before, pages.last().id);
        assert forall|k: int| 0 <= k < now.len() implies before.contains(#[trigger] now[k]) by {
            if now == before {
                assert(before[k] == now[k]);
            }
        }
        assert forall|k: int| 0 <= k < now.len() implies words.contains(#[trigger] now[k]) by {
            assert(before.contains(now[k]));
            let m = choose|m: int| 0 <= m < before.len() && before[m] == now[k];
            assert(words.contains(before[m]));
        }
        assert forall|k: int, i: int|
            0 <= k < now.len() && 0 <= i < pages.len() && contains_text(
                (#[trigger] pages[i]).url,
                part,
            ) implies (#[trigger] now[k]).id != pages[i].id by {
            if i < init.len() {
                assert(before.contains(now[k]));
                let m = choose|m: int| 0 <= m < before.len() && before[m] == now[k];
                assert(init[i] == pages[i]);
                assert(before[m].id != init[i].id);
            }
        }
    }
}

/// Deleting the pages of a host keeps the tables consistent.
pub proof fn law_deleting_a_host_keeps_consistent(t: Tables, part: Seq<char>)
    requires
        consistent(t),
    ensures
        consistent(host_deleted(t, part)),
{
    let now = host_deleted(t, part);
    lemma_pages_without(t.pages, part);
    lemma_pages_without_distinct(t.pages, part);
    lemma_words_without(t.words, t.pages, part);
    assert forall|i: int| 0 <= i < now.pages.len() implies (#[trigger] now.pages[i]).id
        < now.next_id by {
        assert(t.pages.contains(now.pages[i]));
        let m = choose|m: int| 0 <= m < t.pages.len() && t.pages[m] == now.pages[i];
        assert(t.pages[m].id < t.next_id);
    }
    assert forall|k: int| 0 <= k < now.words.len() implies has_text(
        now.pages,
        #[trigger] now.words[k],
    ) by {
        assert(t.words.contains(now.words[k]));
        let m = choose|m: int| 0 <= m < t.words.len() && t.words[m] == now.words[k];
        assert(has_text(t.pages, t.words[m]));
        let i = choose|i: int|
            0 <= i < t.pages.len() && (#[trigger] t.pages[i]).id == t.words[m].id
                && t.pages[i].body == t.words[m].body;
        if contains_text(t.pages[i].url, part) {
            assert(now.words[k].id != t.pages[i].id);
        }
        assert(now.pages.contains(t.pages[i]));
        let b = choose|b: int| 0 <= b < now.pages.len() && now.pages[b] == t.pages[i];
        assert(now.pages[b].id == now.words[k].id);
    }
}

/// Banning a host keeps the tables consistent.
pub proof fn law_banning_keeps_consistent(t: Tables, host: Seq<char>)
    requires
        consistent(t),
    ensures
        consistent(host_banned(t, host)),
{
    let with_ban = Tables { banned_hosts: with_text(t.banned_hosts, host), ..t };
    assert(consistent(with_ban));
    law_deleting_a_host_keeps_consistent(with_ban, host);
}

/// Bringing in an export keeps the tables consistent.
pub proof fn law_import_keeps_consistent(t: Tables, pages: Seq<Exported>, bans: Seq<Seq<char>>)
    requires
        consistent(t),
    ensures
        consistent(all_imported(t, pages, bans)),
{
    lemma_pages_imported_consistent(t, pages);
    let after = pages_imported(t, pages);
    lemma_bans_differ(after.banned_hosts, bans);
    assert(consistent(Tables { banned_hosts: bans_added(after.banned_hosts, bans), ..after }));
}

proof fn lemma_bans_differ(list: Seq<Seq<char>>, more: Seq<Seq<char>>)
    requires
        list.no_duplicates(),
    ensures
        bans_added(list, more).no_duplicates(),
    decreases more.len(),
{
    if more.len() > 0 {
        lemma_bans_differ(list, more.drop_last());
    }
}

/// Storing the icon of a host keeps the tables consistent.
pub proof fn law_icons_keep_consistent(
    t: Tables,
    host: Seq<char>,
    mime: Seq<char>,
    data: Seq<u8>,
    now: Seq<char>,
)
    requires
        consistent(t),
    ensures
        consistent(icon_stored(t, host, mime, data, now)),
{
    lemma_place_of_icon(t.favicons, host);
}

proof fn lemma_place_of_icon(list: Seq<Icon>, host: Seq<char>)
    ensures
        0 <= icon_place(list, host) <= list.len(),
        icon_place(list, host) < list.len() ==> list[icon_place(list, host)].host == host,
        forall|k: int| 0 <= k < icon_place(list, host) ==> (#[trigger] list[k]).host != host,
    decreases list.len(),
{
    if list.len() > 0 && list[0].host != host {
        let rest = list.drop_first();
        lemma_place_of_icon(rest, host);
        assert forall|k: int| 0 <= k < icon_place(list, host) implies (#[trigger] list[k]).host
            != host by {
            if k > 0 {
                assert(rest[k - 1] == list[k]);
            }
        }
    }
}

/// Ignoring a domain, and no longer ignoring it, keep the tables consistent.
pub proof fn law_ignored_domains_keep_consistent(t: Tables, domain: Seq<char>)
    requires
        consistent(t),
    ensures
        consistent(
            (Tables {
                cluster_ignored_domains: with_text(t.cluster_ignored_domains, domain),
                ..t
            }),
        ),
        consistent(
            (Tables {
                cluster_ignored_domains: without_text(t.cluster_ignored_domains, domain),
                ..t
            }),
        ),
{
    lemma_without_text(t.cluster_ignored_domains, domain);
}

proof fn lemma_without_text(list: Seq<Seq<char>>, s: Seq<char>)
    requires
        list.no_duplicates(),
    ensures
        without_text(list, s).no_duplicates(),
        forall|k: int|
            0 <= k < without_text(list, s).len() ==> list.contains(#[trigger] without_text(list, s)[k]),
    decreases list.len(),
{
    if list.len() > 0 {
        let init = list.drop_last();
        lemma_without_text(init, s);
        let before = without_text(init, s);
        let now = without_text(list, s);
        assert forall|k: int| 0 <= k < before.len() implies list.contains(#[trigger] before[k])
            && before[k] != list.last() by {
            assert(init.contains(before[k]));
            let i = choose|i: int| 0 <= i < init.len() && init[i] == before[k];
            assert(list[i] == before[k] && list[i] != list[list.len() - 1]);
        }
        assert(list[list.len() - 1] == list.last());
        assert forall|k: int| 0 <= k < now.len() implies list.contains(#[trigger] now[k]) by {
            if k < before.len() {
                assert(now[k] == before[k]);
            }
        }
    }
}

/// Setting a value keeps the tables consistent.
pub proof fn law_values_keep_consistent(t: Tables, key: Seq<char>, value: Seq<char>)
    requires
        consistent(t),
    ensures
        consistent((Tables { meta: value_set(t.meta, key, value), ..t })),
{
    lemma_value_set(t.meta, key, value);
}

proof fn lemma_value_set(list: Seq<(Seq<char>, Seq<char>)>, key: Seq<char>, value: Seq<char>)
    requires
        forall|i: int, j: int|
            0 <= i < j < list.len() ==> (#[trigger] list[i]).0 != (#[trigger] list[j]).0,
    ensures
        ({
            let now = value_set(list, key, value);
            &&& forall|i: int, j: int|
                0 <= i < j < now.len() ==> (#[trigger] now[i]).0 != (#[trigger] now[j]).0
            &&& forall|other: Seq<char>|
                other != key && (forall|i: int| 0 <= i < list.len() ==> (#[trigger] list[i]).0 != other)
                    ==> #[trigger] lacks_key(now, other)
        }),
    decreases list.len(),
{
    let now = value_set(list, key, value);
    if list.len() > 0 {
        let rest = list.drop_first();
        assert forall|i: int, j: int| 0 <= i < j < rest.len() implies (#[trigger] rest[i]).0 != (
        #[trigger] rest[j]).0 by {
            assert(rest[i] == list[i + 1] && rest[j] == list[j + 1]);
        }
        lemma_value_set(rest, key, value);
        let after = value_set(rest, key, value);
        let tail = now.drop_first();
        assert(now =~= seq![now[0]] + tail);
        if list[0].0 == key {
            assert(tail =~= rest);
            assert forall|i: int| 0 <= i < tail.len() implies (#[trigger] tail[i]).0 != now[0].0 by {
                assert(tail[i] == list[i + 1]);
                assert(list[0].0 != list[i + 1].0);
            }
        } else {
            assert(tail =~= after);
            assert forall|i: int| 0 <= i < rest.len() implies (#[trigger] rest[i]).0 != list[0].0 by {
                assert(rest[i] == list[i + 1]);
                assert(list[0].0 != list[i + 1].0);
            }
            assert(lacks_key(after, list[0].0));
        }
        assert forall|i: int, j: int| 0 <= i < j < now.len() implies (#[trigger] now[i]).0 != (
        #[trigger] now[j]).0 by {
            assert(now[j] == tail[j - 1]);
            if i > 0 {
                assert(now[i] == tail[i - 1]);
            }
        }
        assert forall|other: Seq<char>|
            other != key && (forall|i: int| 0 <= i < list.len() ==> (#[trigger] list[i]).0
                != other) implies #[trigger] lacks_key(now, other) by {
            assert forall|i: int| 0 <= i < rest.len() implies (#[trigger] rest[i]).0 != other by {
                assert(rest[i] == list[i + 1]);
            }
            assert(list[0].0 != other);
            assert(lacks_key(after, other));
            assert forall|i: int| 0 <= i < now.len() implies (#[trigger] now[i]).0 != other by {
                if i > 0 {
                    assert(now[i] == tail[i - 1]);
                    if list[0].0 == key {
                        assert(tail[i - 1] == rest[i - 1]);
                    } else {
                        assert(tail[i - 1] == after[i - 1]);
                    }
                }
            }
        }
    }
}

/// No entry of a list has this key.
pub open spec fn lacks_key(list: Seq<(Seq<char>, Seq<char>)>, key: Seq<char>) -> bool {
    forall|i: int| 0 <= i < list.len() ==> (#[trigger] list[i]).0 != key
}

proof fn lemma_pages_imported_consistent(t: Tables, pages: Seq<Exported>)
    requires
        consistent(t),
    ensures
        consistent(pages_imported(t, pages)),
    decreases pages.len(),
{
    if pages.len() > 0 {
        lemma_pages_imported_consistent(t, pages.drop_last());
        let before = pages_imported(t, pages.drop_last());
        let page = pages.last();
        lemma_place_of(before.pages, page.url);
        let place = place_of(before.pages, page.url);
        if crate::index::store::is_web_url(page.url) {
            if place < before.pages.len() {
                lemma_row_reworded(before, place, merged_row(before.pages[place], page));
            } else {
                let row = Row {
                    title: page.title,
                    body: page.body,
                    status: FetchStatus::Fetched,
                    starred: page.starred,
                    first_visit_at: page.first_visit_at,
                    last_visit_at: page.last_visit_at,
                    ..new_row(before.next_id, page.url)
                };
                lemma_row_added(before, row, page.body.len() > 0);
            }
        }
    }
}

/// What is written of a page is read again: it is there, fetched, with its title and text, its
/// words are found, and no other page has changed.
pub proof fn law_a_written_page_is_read(
    t: Tables,
    url: Seq<char>,
    title: Seq<char>,
    body: Seq<char>,
    now: Seq<char>,
)
    ensures
        ({
            let after = upserted(t, url, title, body, now);
            let at = place_of(after.pages, url);
            &&& at < after.pages.len()
            &&& after.pages[at].url == url
            &&& after.pages[at].title == title
            &&& after.pages[at].body == body
            &&& after.pages[at].status == FetchStatus::Fetched
            &&& after.words.last() == (Words { id: after.pages[at].id, title, body })
            &&& forall|i: int|
                0 <= i < t.pages.len() && (#[trigger] t.pages[i]).url != url ==> after.pages[i]
                    == t.pages[i]
        }),
{
    lemma_place_of(t.pages, url);
    let after = upserted(t, url, title, body, now);
    let at = place_of(t.pages, url);
    assert forall|k: int| 0 <= k < at implies (#[trigger] after.pages[k]).url != url by {
        assert(t.pages[k].url != url);
    }
    lemma_place_unique(after.pages, url, at);
}

/// A deleted page is gone, with its words, and the other pages stay in their order.
pub proof fn law_a_deleted_page_is_gone(t: Tables, url: Seq<char>)
    requires
        consistent(t),
    ensures
        !has_page(page_deleted(t, url).pages, url),
        has_page(t.pages, url) ==> forall|k: int|
            0 <= k < page_deleted(t, url).words.len() ==> (#[trigger] page_deleted(t, url).words[k]).id
                != t.pages[place_of(t.pages, url)].id,
        page_deleted(t, url).pages.len() == t.pages.len() - if has_page(t.pages, url) {
            1int
        } else {
            0
        },
{
    lemma_place_of(t.pages, url);
    let at = place_of(t.pages, url);
    if at < t.pages.len() {
        let after = page_deleted(t, url);
        lemma_without_words(t.words, t.pages[at].id);
        assert forall|k: int| 0 <= k < after.pages.len() implies (#[trigger] after.pages[k]).url
            != url by {
            if k < at {
                assert(after.pages[k] == t.pages[k]);
            } else {
                assert(after.pages[k] == t.pages[k + 1]);
                assert(t.pages[at].url != t.pages[k + 1].url);
            }
        }
        lemma_place_unique(after.pages, url, after.pages.len() as int);
    }
}

/// After a host is banned no page whose URL holds it is left, and no visit of a page that the
/// ban matches brings one back.
pub proof fn law_a_banned_host_stays_out(
    t: Tables,
    host: Seq<char>,
    url: Seq<char>,
    at: Seq<char>,
)
    requires
        ban_matches(url, host),
    ensures
        forall|i: int|
            0 <= i < host_banned(t, host).pages.len() ==> !contains_text(
                (#[trigger] host_banned(t, host).pages[i]).url,
                host,
            ),
        with_visit(host_banned(t, host), url, at) == host_banned(t, host),
{
    lemma_pages_without(t.pages, host);
    let bans = with_text(t.banned_hosts, host);
    assert(bans.contains(host)) by {
        if !t.banned_hosts.contains(host) {
            assert(bans[bans.len() - 1] == host);
        }
    }
    let i = choose|i: int| 0 <= i < bans.len() && bans[i] == host;
    assert(ban_matches(url, bans[i]));
    assert(any_matches(url, host_banned(t, host).banned_hosts));
}

/// A visit never moves the last visit of a page back, nor its first one at all.
pub proof fn law_visits_only_move_forward(row: Row, at: Seq<char>)
    ensures
        visited_row(row, at).last_visit_at == row.last_visit_at || is_later(
            visited_row(row, at).last_visit_at,
            row.last_visit_at,
        ),
        row.first_visit_at is Some ==> visited_row(row, at).first_visit_at == row.first_visit_at,
        visited_row(row, at).first_visit_at is Some,
{
}

/// A page that was skipped is not fetched again, however often it is visited.
pub proof fn law_skipped_pages_stay_skipped(row: Row, at: Seq<char>)
    requires
        row.status == FetchStatus::Skip,
    ensures
        visited_row(row, at).status == FetchStatus::Skip,
{
}

/// Bringing a fetched page back from an export leaves it as it is.
pub proof fn law_an_export_brings_pages_back(row: Row)
    requires
        row.status == FetchStatus::Fetched,
    ensures
        merged_row(row, export_of(row)) == row,
{
    if let Some(s) = row.last_visit_at {
        crate::order::lemma_seq_before_total(crate::order::codes(s), crate::order::codes(s));
    }
    assert(merged_row(row, export_of(row)) =~= row);
}

/// Bringing in the same page twice is the same as bringing it in once.
pub proof fn law_importing_twice_changes_nothing(row: Row, page: Exported)
    ensures
        merged_row(merged_row(row, page), page) == merged_row(row, page),
{
    let once = merged_row(row, page);
    if let Some(s) = page.last_visit_at {
        crate::order::lemma_seq_before_total(crate::order::codes(s), crate::order::codes(s));
    }
    assert(merged_row(once, page) =~= once);
}

/// A page is given up exactly when its failures have reached the limit, and a failure changes
/// nothing else.
pub proof fn law_failures_are_counted(row: Row, max_attempts: u32)
    ensures
        ({
            let after = crate::index::store::failed_row(row, max_attempts);
            &&& after.attempts == row.attempts + 1
            &&& after.attempts >= max_attempts ==> after.status == FetchStatus::Error
            &&& after.attempts < max_attempts ==> after.status == row.status
            &&& after == (Row { attempts: after.attempts, status: after.status, ..row })
        }),
{
}

} // verus!
