//! What the index gives out, and takes in again.

use vstd::prelude::*;

use crate::index::laws::law_marks_keep_consistent;
use crate::index::query::{
    latest_first, latest_keys, listed_starred, star_flags, status_flags, title_keys, Entry,
};
use crate::index::search::{backup_bans, backup_pages, export_of, text_rank};
use crate::index::store::{
    all_imported, bans_added, consistent, filled_count, has_page, is_web_url, lemma_place_of,
    lemma_place_unique, pages_imported, place_of, star_set, starred_imported, web_pages, Exported,
    FetchStatus, Row, Tables,
};
use crate::order::{
    arranged, goes_before, kept, law_sorting_keeps_every_entry, lemma_all_kept, lemma_arranged_by,
    lemma_goes_before, lemma_kept, lemma_sorted_stays, lemma_stable_order, rank_before,
    stable_order,
};

verus! {

/// A page is in the index as an export has it.
pub open spec fn restored(pages: Seq<Row>, page: Exported) -> bool {
    exists|i: int|
        0 <= i < pages.len() && export_of(#[trigger] pages[i]) == page && pages[i].status
            == FetchStatus::Fetched
}

/// Pages none of which another list has stay absent from what they are brought into.
proof fn lemma_import_adds_only_its_pages(t: Tables, pages: Seq<Exported>, url: Seq<char>)
    requires
        !has_page(t.pages, url),
        forall|k: int| 0 <= k < pages.len() ==> (#[trigger] pages[k]).url != url,
    ensures
        !has_page(pages_imported(t, pages).pages, url),
    decreases pages.len(),
{
    if pages.len() > 0 {
        let init = pages.drop_last();
        assert forall|k: int| 0 <= k < init.len() implies (#[trigger] init[k]).url != url by {
            assert(init[k] == pages[k]);
        }
        lemma_import_adds_only_its_pages(t, init, url);
        let before = pages_imported(t, init).pages;
        let after = pages_imported(t, pages).pages;
        assert(pages[pages.len() - 1].url != url);
        lemma_place_of(before, url);
        lemma_place_of(before, pages.last().url);
        lemma_place_of(after, url);
        assert forall|k: int| 0 <= k < after.len() implies (#[trigger] after[k]).url != url by {
            if k < before.len() {
                assert(before[k].url != url);
                assert(after[k].url == before[k].url);
            }
        }
    }
}

/// Pages with different URLs that are not there yet are all there once they are brought in.
proof fn lemma_import_restores(t: Tables, pages: Seq<Exported>)
    requires
        forall|i: int, j: int|
            0 <= i < j < pages.len() ==> (#[trigger] pages[i]).url != (#[trigger] pages[j]).url,
        forall|k: int| 0 <= k < pages.len() ==> !has_page(t.pages, (#[trigger] pages[k]).url),
    ensures
        forall|k: int|
            0 <= k < pages.len() && is_web_url((#[trigger] pages[k]).url) ==> restored(
                pages_imported(t, pages).pages,
                pages[k],
            ),
    decreases pages.len(),
{
    if pages.len() > 0 {
        let init = pages.drop_last();
        let last = pages.last();
        assert forall|i: int, j: int| 0 <= i < j < init.len() implies (#[trigger] init[i]).url != (
        #[trigger] init[j]).url by {
            assert(init[i] == pages[i] && init[j] == pages[j]);
        }
        assert forall|k: int| 0 <= k < init.len() implies !has_page(
            t.pages,
            (#[trigger] init[k]).url,
        ) by {
            assert(init[k] == pages[k]);
        }
        lemma_import_restores(t, init);
        assert forall|k: int| 0 <= k < init.len() implies (#[trigger] init[k]).url != last.url by {
            assert(init[k] == pages[k] && last == pages[pages.len() - 1]);
        }
        assert(!has_page(t.pages, pages[pages.len() - 1].url));
        lemma_import_adds_only_its_pages(t, init, last.url);
        let before = pages_imported(t, init).pages;
        let after = pages_imported(t, pages).pages;
        assert forall|k: int| 0 <= k < pages.len() && is_web_url(
            (#[trigger] pages[k]).url,
        ) implies restored(after, pages[k]) by {
            if k < init.len() {
                assert(init[k] == pages[k]);
                assert(restored(before, init[k]));
                let i = choose|i: int|
                    0 <= i < before.len() && export_of(#[trigger] before[i]) == init[k]
                        && before[i].status == FetchStatus::Fetched;
                assert(after[i] == before[i]);
            } else {
                lemma_place_of(before, last.url);
                assert(export_of(after[before.len() as int]) == last);
            }
        }
    }
}

/// A backup brings everything back: brought into an index that has none of its pages, an export
/// restores every fetched web page with its title, its text, its star and its visits.
pub proof fn law_a_backup_restores_every_page(t: Tables, into: Tables, bans: Seq<Seq<char>>, n: int)
    requires
        consistent(t),
        forall|k: int|
            0 <= k < t.pages.len() ==> !has_page(into.pages, (#[trigger] t.pages[k]).url),
        0 <= n < t.pages.len(),
        t.pages[n].status == FetchStatus::Fetched,
        is_web_url(t.pages[n].url),
    ensures
        restored(all_imported(into, backup_pages(t), bans).pages, export_of(t.pages[n])),
{
    let flags = status_flags(t.pages, FetchStatus::Fetched);
    let found = kept(t.pages, flags);
    let keys = latest_keys(found);
    let sorted = arranged(found, keys);
    let pages = backup_pages(t);
    lemma_kept_differ(t.pages, flags);
    lemma_stable_order(keys);
    let o = stable_order(keys);
    assert forall|i: int, j: int| 0 <= i < j < pages.len() implies (#[trigger] pages[i]).url != (
    #[trigger] pages[j]).url by {
        lemma_goes_before(keys, o[i], o[j], o[j]);
        assert(goes_before(keys, o[i], o[j]));
        assert(o[i] != o[j]);
        assert(found[o[i]].url != found[o[j]].url);
    }
    lemma_kept(t.pages, flags, |row: Row| !has_page(into.pages, row.url));
    assert forall|k: int| 0 <= k < pages.len() implies !has_page(
        into.pages,
        (#[trigger] pages[k]).url,
    ) by {
        assert(0 <= o[k] < found.len());
        assert(!has_page(into.pages, found[o[k]].url));
    }
    lemma_import_restores(into, pages);
    lemma_kept_holds(t.pages, flags, n);
    law_sorting_keeps_every_entry(found, keys);
    assert(sorted.contains(t.pages[n]));
    let k = choose|k: int| 0 <= k < sorted.len() && sorted[k] == t.pages[n];
    assert(pages[k] == export_of(t.pages[n]));
    assert(is_web_url(pages[k].url));
}

/// What is kept of rows with different URLs has different URLs, and is part of the rows.
proof fn lemma_kept_differ(rows: Seq<Row>, flags: Seq<bool>)
    requires
        forall|i: int, j: int|
            0 <= i < j < rows.len() ==> (#[trigger] rows[i]).url != (#[trigger] rows[j]).url,
    ensures
        forall|i: int, j: int|
            0 <= i < kept(rows, flags).len() && 0 <= j < kept(rows, flags).len() && i != j ==> (
            #[trigger] kept(rows, flags)[i]).url != (#[trigger] kept(rows, flags)[j]).url,
        forall|i: int|
            0 <= i < kept(rows, flags).len() ==> rows.contains(#[trigger] kept(rows, flags)[i]),
    decreases rows.len(),
{
    if rows.len() > 0 {
        let init = rows.drop_last();
        assert forall|i: int, j: int| 0 <= i < j < init.len() implies (#[trigger] init[i]).url != (
        #[trigger] init[j]).url by {
            assert(init[i] == rows[i] && init[j] == rows[j]);
        }
        lemma_kept_differ(init, flags);
        let before = kept(init, flags);
        let now = kept(rows, flags);
        assert forall|i: int| 0 <= i < before.len() implies rows.contains(#[trigger] before[i])
            && before[i].url != rows.last().url by {
            assert(init.contains(before[i]));
            let k = choose|k: int| 0 <= k < init.len() && init[k] == before[i];
            assert(rows[k] == before[i]);
            assert(rows[k].url != rows[rows.len() - 1].url);
        }
        assert(rows.contains(rows.last())) by {
            assert(rows[rows.len() - 1] == rows.last());
        }
        assert forall|i: int| 0 <= i < now.len() implies rows.contains(#[trigger] now[i]) by {
            if i < before.len() {
                assert(now[i] == before[i]);
            }
        }
        assert forall|i: int, j: int|
            0 <= i < now.len() && 0 <= j < now.len() && i != j implies (#[trigger] now[i]).url != (
        #[trigger] now[j]).url by {
            if i < before.len() {
                assert(now[i] == before[i]);
            }
            if j < before.len() {
                assert(now[j] == before[j]);
            }
        }
    }
}

/// A row that is to be kept is kept.
proof fn lemma_kept_holds(rows: Seq<Row>, flags: Seq<bool>, n: int)
    requires
        0 <= n < rows.len(),
        flags[n],
    ensures
        kept(rows, flags).contains(rows[n]),
    decreases rows.len(),
{
    let now = kept(rows, flags);
    if n == rows.len() - 1 {
        assert(now[now.len() - 1] == rows[n]);
    } else {
        let init = rows.drop_last();
        lemma_kept_holds(init, flags, n);
        let before = kept(init, flags);
        let k = choose|k: int| 0 <= k < before.len() && before[k] == init[n];
        assert(now[k] == rows[n]);
    }
}

/// The bans of a backup hold again once it is brought in.
pub proof fn law_a_backup_restores_every_ban(t: Tables, into: Tables, pages: Seq<Exported>, n: int)
    requires
        0 <= n < t.banned_hosts.len(),
        t.banned_hosts[n].len() > 0,
    ensures
        all_imported(into, pages, backup_bans(t)).banned_hosts.contains(t.banned_hosts[n]),
{
    let keys = t.banned_hosts.map_values(|h: Seq<char>| text_rank(h));
    law_sorting_keeps_every_entry(t.banned_hosts, keys);
    assert(backup_bans(t).contains(t.banned_hosts[n]));
    let k = choose|k: int| 0 <= k < backup_bans(t).len() && backup_bans(t)[k] == t.banned_hosts[n];
    lemma_bans_added(pages_imported(into, pages).banned_hosts, backup_bans(t), k);
}

proof fn lemma_bans_added(list: Seq<Seq<char>>, more: Seq<Seq<char>>, n: int)
    requires
        0 <= n < more.len(),
        more[n].len() > 0,
    ensures
        bans_added(list, more).contains(more[n]),
    decreases more.len(),
{
    let init = more.drop_last();
    let before = bans_added(list, init);
    let now = bans_added(list, more);
    if n == more.len() - 1 {
        if !before.contains(more[n]) {
            assert(now[now.len() - 1] == more[n]);
        }
    } else {
        lemma_bans_added(list, init, n);
        let k = choose|k: int| 0 <= k < before.len() && before[k] == init[n];
        assert(now[k] == more[n]);
    }
}

/// Web pages with different URLs that are not there yet are added one behind the other.
proof fn lemma_import_adds(t: Tables, pages: Seq<Exported>)
    requires
        forall|i: int, j: int|
            0 <= i < j < pages.len() ==> (#[trigger] pages[i]).url != (#[trigger] pages[j]).url,
        forall|k: int|
            0 <= k < pages.len() ==> !has_page(t.pages, (#[trigger] pages[k]).url) && is_web_url(
                pages[k].url,
            ),
    ensures
        ({
            let after = pages_imported(t, pages);
            &&& after.banned_hosts == t.banned_hosts
            &&& after.pages.len() == t.pages.len() + pages.len()
            &&& forall|k: int|
                0 <= k < pages.len() ==> export_of(#[trigger] after.pages[t.pages.len() + k])
                    == pages[k] && after.pages[t.pages.len() + k].status == FetchStatus::Fetched
        }),
        web_pages(pages) == pages.len(),
    decreases pages.len(),
{
    if pages.len() > 0 {
        let init = pages.drop_last();
        let last = pages.last();
        assert(last == pages[pages.len() - 1]);
        assert forall|k: int| 0 <= k < init.len() implies #[trigger] init[k] == pages[k]
            && init[k].url != last.url by {
            assert(pages[k].url != pages[pages.len() - 1].url);
        }
        assert forall|i: int, j: int| 0 <= i < j < init.len() implies (#[trigger] init[i]).url != (
        #[trigger] init[j]).url by {
            assert(init[i] == pages[i] && init[j] == pages[j]);
        }
        lemma_import_adds(t, init);
        lemma_import_adds_only_its_pages(t, init, last.url);
        let n = t.pages.len() as int;
        let before = pages_imported(t, init).pages;
        let after = pages_imported(t, pages).pages;
        assert forall|k: int| 0 <= k < pages.len() implies export_of(#[trigger] after[n + k])
            == pages[k] && after[n + k].status == FetchStatus::Fetched by {
            if k < init.len() {
                assert(after[n + k] == before[n + k]);
                assert(init[k] == pages[k]);
            } else {
                assert(export_of(after[n + k]) =~= last);
            }
        }
    }
}

/// Bans that differ and are not empty are all added to a list that has none of them.
proof fn lemma_bans_of_none(more: Seq<Seq<char>>)
    requires
        more.no_duplicates(),
        forall|k: int| 0 <= k < more.len() ==> (#[trigger] more[k]).len() > 0,
    ensures
        bans_added(Seq::empty(), more) == more,
        filled_count(more) == more.len(),
    decreases more.len(),
{
    if more.len() > 0 {
        let init = more.drop_last();
        assert forall|k: int| 0 <= k < init.len() implies (#[trigger] init[k]).len() > 0 by {
            assert(init[k] == more[k]);
        }
        lemma_bans_of_none(init);
        assert(more[more.len() - 1].len() > 0);
        assert(!init.contains(more.last())) by {
            if init.contains(more.last()) {
                let k = choose|k: int| 0 <= k < init.len() && init[k] == more.last();
                assert(more[k] == more[more.len() - 1]);
            }
        }
        assert(bans_added(Seq::empty(), more) =~= more);
    }
}

/// The pages of an export differ in their URLs, and come the last visited first.
proof fn lemma_backup_pages(t: Tables)
    requires
        consistent(t),
    ensures
        forall|i: int, j: int|
            0 <= i < j < backup_pages(t).len() ==> (#[trigger] backup_pages(t)[i]).url != (
            #[trigger] backup_pages(t)[j]).url,
        forall|i: int, j: int|
            0 <= i < j < backup_pages(t).len() ==> !rank_before(
                latest_first((#[trigger] backup_pages(t)[j]).last_visit_at),
                latest_first((#[trigger] backup_pages(t)[i]).last_visit_at),
            ),
        forall|k: int|
            0 <= k < backup_pages(t).len() ==> restored(t.pages, #[trigger] backup_pages(t)[k]),
{
    let flags = status_flags(t.pages, FetchStatus::Fetched);
    let found = kept(t.pages, flags);
    let keys = latest_keys(found);
    let pages = backup_pages(t);
    lemma_kept_differ(t.pages, flags);
    lemma_kept(t.pages, flags, |row: Row| row.status == FetchStatus::Fetched);
    lemma_stable_order(keys);
    lemma_arranged_by(found, keys, |row: Row| latest_first(row.last_visit_at));
    let o = stable_order(keys);
    assert forall|i: int, j: int| 0 <= i < j < pages.len() implies (#[trigger] pages[i]).url != (
    #[trigger] pages[j]).url by {
        lemma_goes_before(keys, o[i], o[j], o[j]);
        assert(goes_before(keys, o[i], o[j]));
        assert(o[i] != o[j]);
        assert(found[o[i]].url != found[o[j]].url);
    }
    assert forall|i: int, j: int| 0 <= i < j < pages.len() implies !rank_before(
        latest_first((#[trigger] pages[j]).last_visit_at),
        latest_first((#[trigger] pages[i]).last_visit_at),
    ) by {
        let sorted = arranged(found, keys);
        assert(pages[i] == export_of(sorted[i]) && pages[j] == export_of(sorted[j]));
    }
    assert forall|k: int| 0 <= k < pages.len() implies restored(t.pages, #[trigger] pages[k]) by {
        assert(0 <= o[k] < found.len());
        assert(t.pages.contains(found[o[k]]));
        let n = choose|n: int| 0 <= n < t.pages.len() && t.pages[n] == found[o[k]];
        assert(export_of(t.pages[n]) == pages[k]);
    }
}

/// A backup is whole: what an export of an index brings into an empty one is exported from there
/// again, the same pages and the same bans and nothing else, and as many pages and bans count as
/// brought in as the export has.
pub proof fn law_a_backup_is_whole(t: Tables, into: Tables)
    requires
        consistent(t),
        forall|n: int|
            0 <= n < t.pages.len() && (#[trigger] t.pages[n]).status == FetchStatus::Fetched
                ==> is_web_url(t.pages[n].url),
        forall|n: int| 0 <= n < t.banned_hosts.len() ==> (#[trigger] t.banned_hosts[n]).len() > 0,
        into.pages.len() == 0,
        into.banned_hosts.len() == 0,
    ensures
        ({
            let after = all_imported(into, backup_pages(t), backup_bans(t));
            &&& backup_pages(after) == backup_pages(t)
            &&& backup_bans(after) == backup_bans(t)
        }),
        web_pages(backup_pages(t)) == backup_pages(t).len(),
        filled_count(backup_bans(t)) == backup_bans(t).len(),
{
    let pages = backup_pages(t);
    let bans = backup_bans(t);
    let after = all_imported(into, pages, bans);
    lemma_backup_pages(t);
    assert forall|k: int| 0 <= k < pages.len() implies !has_page(
        into.pages,
        (#[trigger] pages[k]).url,
    ) && is_web_url(pages[k].url) by {
        let n = choose|n: int|
            0 <= n < t.pages.len() && export_of(#[trigger] t.pages[n]) == pages[k]
                && t.pages[n].status == FetchStatus::Fetched;
        assert(is_web_url(t.pages[n].url));
    }
    lemma_import_adds(into, pages);
    assert forall|k: int| 0 <= k < after.pages.len() implies export_of(#[trigger] after.pages[k])
        == pages[k] && after.pages[k].status == FetchStatus::Fetched by {
        assert(after.pages[into.pages.len() + k] == pages_imported(into, pages).pages[into.pages.len()
            + k]);
    }
    let flags = status_flags(after.pages, FetchStatus::Fetched);
    lemma_all_kept(after.pages, flags);
    let keys = latest_keys(after.pages);
    assert forall|i: int, j: int| 0 <= i < j < keys.len() implies !rank_before(
        #[trigger] keys[j],
        #[trigger] keys[i],
    ) by {
        assert(export_of(after.pages[i]) == pages[i] && export_of(after.pages[j]) == pages[j]);
    }
    lemma_sorted_stays(after.pages, keys);
    assert(backup_pages(after) =~= pages);

    let ban_keys = t.banned_hosts.map_values(|h: Seq<char>| text_rank(h));
    let o = stable_order(ban_keys);
    lemma_stable_order(ban_keys);
    lemma_arranged_by(t.banned_hosts, ban_keys, |h: Seq<char>| text_rank(h));
    assert(bans.no_duplicates()) by {
        assert forall|i: int, j: int| 0 <= i < bans.len() && 0 <= j < bans.len() && i
            != j implies bans[i] != bans[j] by {
            lemma_goes_before(ban_keys, o[i], o[j], o[j]);
            lemma_goes_before(ban_keys, o[j], o[i], o[i]);
            if i < j {
                assert(goes_before(ban_keys, o[i], o[j]));
            } else {
                assert(goes_before(ban_keys, o[j], o[i]));
            }
            assert(o[i] != o[j]);
            assert(t.banned_hosts[o[i]] != t.banned_hosts[o[j]]);
        }
    }
    assert forall|k: int| 0 <= k < bans.len() implies (#[trigger] bans[k]).len() > 0 by {
        assert(0 <= o[k] < t.banned_hosts.len());
        assert(t.banned_hosts[o[k]].len() > 0);
    }
    lemma_bans_of_none(bans);
    assert(into.banned_hosts =~= Seq::empty());
    assert(after.banned_hosts == bans);
    let again = bans.map_values(|h: Seq<char>| text_rank(h));
    assert forall|i: int, j: int| 0 <= i < j < again.len() implies !rank_before(
        #[trigger] again[j],
        #[trigger] again[i],
    ) by {
        assert(again[i] == text_rank(bans[i]) && again[j] == text_rank(bans[j]));
    }
    lemma_sorted_stays(bans, again);
}

/// The URLs and titles of a list of pages.
pub open spec fn names_of(list: Seq<Entry>) -> Seq<(Seq<char>, Seq<char>)> {
    list.map_values(|e: Entry| (e.url, e.title))
}

/// A list of links names a URL.
pub open spec fn names_url(items: Seq<(Seq<char>, Seq<char>)>, url: Seq<char>) -> bool {
    exists|k: int| 0 <= k < items.len() && (#[trigger] items[k]).0 == url
}

/// Links to pages of the index, under the titles that those have, star the pages, and change no
/// URL and no title.
proof fn lemma_stars_imported(t: Tables, items: Seq<(Seq<char>, Seq<char>)>, now: Seq<char>)
    requires
        consistent(t),
        forall|k: int|
            0 <= k < items.len() ==> has_page(t.pages, (#[trigger] items[k]).0) && t.pages[place_of(
                t.pages,
                items[k].0,
            )].title == items[k].1,
    ensures
        ({
            let after = starred_imported(t, items, now);
            &&& after.pages.len() == t.pages.len()
            &&& forall|i: int|
                0 <= i < t.pages.len() ==> {
                    let row = #[trigger] after.pages[i];
                    &&& row.url == t.pages[i].url
                    &&& row.title == t.pages[i].title
                    &&& row.starred == (t.pages[i].starred || is_web_url(row.url) && names_url(
                        items,
                        row.url,
                    ))
                }
        }),
    decreases items.len(),
{
    if items.len() > 0 {
        let init = items.drop_last();
        let (url, title) = items.last();
        assert forall|k: int| 0 <= k < init.len() implies has_page(t.pages, (#[trigger] init[k]).0)
            && t.pages[place_of(t.pages, init[k].0)].title == init[k].1 by {
            assert(init[k] == items[k]);
        }
        lemma_stars_imported(t, init, now);
        let before = starred_imported(t, init, now);
        let after = starred_imported(t, items, now);
        assert(items[items.len() - 1] == (url, title));
        lemma_place_of(t.pages, url);
        let at = place_of(t.pages, url);
        assert forall|k: int| 0 <= k < at implies (#[trigger] before.pages[k]).url != url by {
            assert(before.pages[k].url == t.pages[k].url);
        }
        assert(before.pages[at].url == t.pages[at].url);
        lemma_place_unique(before.pages, url, at);
        assert forall|i: int| 0 <= i < t.pages.len() implies {
            let row = #[trigger] after.pages[i];
            &&& row.url == t.pages[i].url
            &&& row.title == t.pages[i].title
            &&& row.starred == (t.pages[i].starred || is_web_url(row.url) && names_url(
                items,
                row.url,
            ))
        } by {
            let old = before.pages[i];
            assert(old.url == t.pages[i].url && old.title == t.pages[i].title);
            if names_url(init, old.url) {
                let k = choose|k: int| 0 <= k < init.len() && (#[trigger] init[k]).0 == old.url;
                assert(items[k].0 == old.url);
            }
            if i == at {
                assert(items[items.len() - 1].0 == old.url);
            } else {
                assert(t.pages[i].url != t.pages[at].url) by {
                    if i < at {
                        assert(t.pages[i].url != t.pages[at].url);
                    } else {
                        assert(t.pages[at].url != t.pages[i].url);
                    }
                }
                if names_url(items, old.url) {
                    let k = choose|k: int| 0 <= k < items.len() && (#[trigger] items[k]).0 == old.url;
                    assert(init[k].0 == old.url);
                }
            }
        }
    }
}

/// The starred pages of two lists have the same URLs and titles, where each page has the same
/// URL, title and star in both.
proof fn lemma_same_stars(a: Seq<Row>, b: Seq<Row>)
    requires
        a.len() == b.len(),
        forall|i: int|
            0 <= i < a.len() ==> (#[trigger] a[i]).url == b[i].url && a[i].title == b[i].title
                && a[i].starred == b[i].starred,
    ensures
        ({
            let (x, y) = (kept(a, star_flags(a)), kept(b, star_flags(b)));
            &&& x.len() == y.len()
            &&& forall|i: int|
                0 <= i < x.len() ==> (#[trigger] x[i]).url == y[i].url && x[i].title == y[i].title
        }),
    decreases a.len(),
{
    if a.len() > 0 {
        let (m, n) = (a.drop_last(), b.drop_last());
        lemma_same_stars(m, n);
        lemma_kept_under(m, star_flags(m), star_flags(a));
        lemma_kept_under(n, star_flags(n), star_flags(b));
        assert(a[a.len() - 1].url == b[a.len() - 1].url);
    }
}

/// What is kept of a list depends on the flags of its entries alone.
proof fn lemma_kept_under(rows: Seq<Row>, f: Seq<bool>, g: Seq<bool>)
    requires
        forall|i: int| 0 <= i < rows.len() ==> f[i] == g[i],
    ensures
        kept(rows, f) == kept(rows, g),
    decreases rows.len(),
{
    if rows.len() > 0 {
        lemma_kept_under(rows.drop_last(), f, g);
    }
}

/// An export of stars restores them: where a page is starred, the starred pages are given out
/// with it, and its star is then taken away, bringing in what was given out gives back the same
/// starred pages.
pub proof fn law_exported_stars_come_back(t: Tables, url: Seq<char>, limit: u32, now: Seq<char>)
    requires
        consistent(t),
        has_page(t.pages, url),
        is_web_url(url),
        names_url(names_of(listed_starred(star_set(t, url, true), limit)), url),
    ensures
        ({
            let starred = star_set(t, url, true);
            let export = names_of(listed_starred(starred, limit));
            let after = starred_imported(star_set(starred, url, false), export, now);
            &&& names_of(listed_starred(after, limit)) == export
            &&& names_url(names_of(listed_starred(after, limit)), url)
        }),
{
    let starred = star_set(t, url, true);
    let export = names_of(listed_starred(starred, limit));
    let bare = star_set(starred, url, false);
    let after = starred_imported(bare, export, now);
    lemma_place_of(t.pages, url);
    let at = place_of(t.pages, url);
    assert forall|k: int| 0 <= k < at implies (#[trigger] starred.pages[k]).url != url by {
        assert(starred.pages[k] == t.pages[k]);
    }
    lemma_place_unique(starred.pages, url, at);
    law_marks_keep_consistent(t, url, true, FetchStatus::Skip, Seq::empty(), 0);
    law_marks_keep_consistent(starred, url, false, FetchStatus::Skip, Seq::empty(), 0);
    let flags = star_flags(starred.pages);
    let found = kept(starred.pages, flags);
    let keys = title_keys(found);
    lemma_kept_differ(starred.pages, flags);
    lemma_kept(starred.pages, flags, |row: Row| row.starred);
    lemma_stable_order(keys);
    let o = stable_order(keys);
    assert forall|k: int| 0 <= k < export.len() implies exists|n: int|
        0 <= n < bare.pages.len() && (#[trigger] bare.pages[n]).url == (#[trigger] export[k]).0
            && bare.pages[n].title == export[k].1 && starred.pages[n].starred by {
        assert(0 <= o[k] < found.len());
        assert(starred.pages.contains(found[o[k]]));
        let n = choose|n: int| 0 <= n < starred.pages.len() && starred.pages[n] == found[o[k]];
        assert(export[k] == (found[o[k]].url, found[o[k]].title));
        assert(bare.pages[n].url == export[k].0);
    }
    assert forall|k: int| 0 <= k < export.len() implies has_page(bare.pages, (#[trigger] export[k]).0)
        && bare.pages[place_of(bare.pages, export[k].0)].title == export[k].1 by {
        let n = choose|n: int|
            0 <= n < bare.pages.len() && (#[trigger] bare.pages[n]).url == export[k].0
                && bare.pages[n].title == export[k].1 && starred.pages[n].starred;
        lemma_place_here(bare, n);
    }
    lemma_stars_imported(bare, export, now);
    assert forall|i: int| 0 <= i < starred.pages.len() implies (#[trigger] starred.pages[i]).url
        == after.pages[i].url && starred.pages[i].title == after.pages[i].title
        && starred.pages[i].starred == after.pages[i].starred by {
        assert(after.pages[i].url == bare.pages[i].url);
        assert(bare.pages[i].url == starred.pages[i].url);
        if names_url(export, bare.pages[i].url) {
            let k = choose|k: int| 0 <= k < export.len() && (#[trigger] export[k]).0
                == bare.pages[i].url;
            let n = choose|n: int|
                0 <= n < bare.pages.len() && (#[trigger] bare.pages[n]).url == export[k].0
                    && bare.pages[n].title == export[k].1 && starred.pages[n].starred;
            lemma_place_here(bare, n);
            lemma_place_here(bare, i);
            assert(n == i);
        }
        if i == at {
            assert(starred.pages[i].url == url);
        } else {
            assert(bare.pages[i].starred == starred.pages[i].starred);
        }
    }
    lemma_same_stars(starred.pages, after.pages);
    let found_after = kept(after.pages, star_flags(after.pages));
    assert(title_keys(found_after) =~= keys);
    assert forall|i: int| 0 <= i < export.len() implies #[trigger] names_of(
        listed_starred(after, limit),
    )[i] == export[i] by {
        assert(0 <= o[i] < found.len());
        assert(found[o[i]].url == found_after[o[i]].url);
    }
    assert(names_of(listed_starred(after, limit)) =~= export);
}

/// A row of consistent tables stands at the place of its URL.
proof fn lemma_place_here(t: Tables, n: int)
    requires
        consistent(t),
        0 <= n < t.pages.len(),
    ensures
        place_of(t.pages, t.pages[n].url) == n,
{
    assert forall|k: int| 0 <= k < n implies (#[trigger] t.pages[k]).url != t.pages[n].url by {
        assert(t.pages[k].url != t.pages[n].url);
    }
    lemma_place_unique(t.pages, t.pages[n].url, n);
}

} // verus!
