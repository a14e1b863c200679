//! Embeddings and sessions out of the index.

use vstd::prelude::*;
use vstd::string::*;

use crate::cluster::PageForClustering;
use crate::index::search::visited_since;
use crate::index::store::{text_precedes, IndexStore, PageRow, Row, Tables};
use crate::lists::{lemma_picked_none, lemma_picked_one_more, picked};
use crate::order::{
    arranged, codes, first_n, is_part, kept, lemma_arranged_by, lemma_arranged_map,
    lemma_kept_and_sorted, lemma_seq_before_total, number_rank, ranks, sort_by_keys, sorted,
    take_first, text_before, Key, Rank,
};
use crate::score::Score;
use crate::text::opt_bytes;
use crate::time::{read_as, read_time, Timestamp};

verus! {

/// A page that is close to a query.
#[derive(Debug)]
pub struct VectorResult {
    pub url: String,
    pub title: String,
    pub score: Score,
}

/// What pages with scores stand for.
pub open spec fn scored(list: Seq<VectorResult>) -> Seq<(Seq<char>, Seq<char>, Score)> {
    list.map_values(|v: VectorResult| (v.url@, v.title@, v.score))
}

/// Which pages reach a score.
pub open spec fn score_flags(list: Seq<(Seq<char>, Seq<char>, Score)>, least: Score) -> Seq<bool> {
    list.map_values(|v: (Seq<char>, Seq<char>, Score)| v.2.reaches(least))
}

/// The sorting keys of pages with scores: the highest first.
pub open spec fn score_keys(list: Seq<(Seq<char>, Seq<char>, Score)>) -> Seq<Rank> {
    list.map_values(
        |v: (Seq<char>, Seq<char>, Score)|
            Rank { major: -v.2.key(), minor: 0, text: Seq::empty() },
    )
}

/// The pages closest to a query.
pub open spec fn closest(
    list: Seq<(Seq<char>, Seq<char>, Score)>,
    limit: u32,
    least: Score,
) -> Seq<(Seq<char>, Seq<char>, Score)> {
    let near = kept(list, score_flags(list, least));
    first_n(arranged(near, score_keys(near)), limit as nat)
}

/// The pages closest to a query, the closest first: those that reach a score, up to a limit.
pub fn rank_vectors(candidates: Vec<VectorResult>, limit: u32, min_score: Score) -> (r: Vec<
    VectorResult,
>)
    ensures
        scored(r@) == closest(scored(candidates@), limit, min_score),
{
    let ghost all = scored(candidates@);
    let ghost raw = candidates@;
    let mut flags: Vec<bool> = Vec::new();
    let mut i: usize = 0;
    while i < candidates.len()
        invariant
            i <= candidates@.len(),
            all == scored(candidates@),
            flags@.len() == i,
            forall|k: int| 0 <= k < i ==> #[trigger] flags@[k] == score_flags(all, min_score)[k],
        decreases candidates@.len() - i,
    {
        flags.push(candidates[i].score.at_least(&min_score));
        i = i + 1;
    }
    assert(flags@ =~= score_flags(all, min_score));
    let near: Vec<VectorResult> = crate::order::keep(candidates, &flags);
    let ghost chosen = kept(all, flags@);
    proof {
        lemma_kept_map(raw, flags@, |v: VectorResult| (v.url@, v.title@, v.score));
    }
    assert(scored(near@) == chosen);
    let mut keys: Vec<Key> = Vec::new();
    let mut j: usize = 0;
    while j < near.len()
        invariant
            j <= near@.len(),
            scored(near@) == chosen,
            keys@.len() == j,
            forall|k: int| 0 <= k < j ==> (#[trigger] keys@[k])@ == score_keys(chosen)[k],
        decreases near@.len() - j,
    {
        assert(chosen[j as int] == scored(near@)[j as int]);
        keys.push(Key::number(-(near[j].score.order_key() as i128)));
        j = j + 1;
    }
    assert(ranks(keys@) =~= score_keys(chosen));
    let ghost n = near@;
    let sorted: Vec<VectorResult> = sort_by_keys(near, &keys);
    proof {
        lemma_arranged_map(
            n,
            score_keys(chosen),
            |v: VectorResult| (v.url@, v.title@, v.score),
        );
    }
    let ghost whole = sorted@;
    let r: Vec<VectorResult> = take_first(sorted, limit as usize);
    assert(scored(r@) =~= first_n(scored(whole), limit as nat));
    r
}

/// Keeping entries of a list and then changing each is the same as changing each first.
proof fn lemma_kept_map<A, B>(items: Seq<A>, flags: Seq<bool>, f: spec_fn(A) -> B)
    ensures
        kept(items.map_values(f), flags) == kept(items, flags).map_values(f),
    decreases items.len(),
{
    if items.len() > 0 {
        lemma_kept_map(items.drop_last(), flags, f);
        assert(items.map_values(f).drop_last() =~= items.drop_last().map_values(f));
        assert(kept(items.map_values(f), flags) =~= kept(items, flags).map_values(f));
    } else {
        assert(kept(items.map_values(f), flags) =~= kept(items, flags).map_values(f));
    }
}

/// Every page that is returned reaches the least score, and there are no more than asked for.
pub proof fn law_vector_results_reach_the_score(
    list: Seq<(Seq<char>, Seq<char>, Score)>,
    limit: u32,
    least: Score,
)
    ensures
        closest(list, limit, least).len() <= limit,
        forall|i: int|
            0 <= i < closest(list, limit, least).len() ==> (#[trigger] closest(
                list,
                limit,
                least,
            )[i]).2.reaches(least),
{
    let flags = score_flags(list, least);
    let near = kept(list, flags);
    crate::order::lemma_kept(
        list,
        flags,
        |v: (Seq<char>, Seq<char>, Score)| v.2.reaches(least),
    );
    crate::order::lemma_stable_order(score_keys(near));
    let o = crate::order::stable_order(score_keys(near));
    let out = closest(list, limit, least);
    assert forall|i: int| 0 <= i < out.len() implies (#[trigger] out[i]).2.reaches(least) by {
        assert(0 <= o[i] < near.len());
        assert(out[i] == near[o[i]]);
    }
}

/// A number as four bytes, the lowest first.
pub open spec fn four_bytes(n: u32) -> Seq<u8> {
    seq![
        (n % 256) as u8,
        ((n / 256) % 256) as u8,
        ((n / 65536) % 256) as u8,
        (n / 16777216) as u8,
    ]
}

/// The bytes of an embedding: four for the bits of each number.
pub open spec fn embedding_bytes(v: Seq<Score>) -> Seq<u8>
    decreases v.len(),
{
    if v.len() == 0 {
        Seq::empty()
    } else {
        embedding_bytes(v.drop_last()) + four_bytes(v.last().bits)
    }
}

/// The number in four bytes.
pub open spec fn number_at(b: Seq<u8>, i: int) -> int {
    b[i] + 256 * b[i + 1] + 65536 * b[i + 2] + 16777216 * b[i + 3]
}

/// The numbers of an embedding; bytes behind the last whole number do not count.
pub open spec fn embedding_numbers(b: Seq<u8>) -> Seq<Score> {
    Seq::new((b.len() / 4) as nat, |i: int| Score { bits: number_at(b, 4 * i) as u32 })
}

/// The bytes of an embedding.
pub fn embed_to_bytes(v: &Vec<Score>) -> (r: Vec<u8>)
    ensures
        r@ == embedding_bytes(v@),
{
    let mut out: Vec<u8> = Vec::new();
    let mut i: usize = 0;
    assert(out@ =~= embedding_bytes(v@.take(0)));
    while i < v.len()
        invariant
            i <= v@.len(),
            out@ == embedding_bytes(v@.take(i as int)),
        decreases v@.len() - i,
    {
        let ghost t = v@.take(i as int + 1);
        assert(t.drop_last() =~= v@.take(i as int));
        let ghost before = out@;
        let n: u32 = v[i].bits;
        out.push((n % 256) as u8);
        out.push(((n / 256) % 256) as u8);
        out.push(((n / 65536) % 256) as u8);
        out.push((n / 16777216) as u8);
        assert(out@ =~= before + four_bytes(n));
        i = i + 1;
    }
    assert(v@.take(v@.len() as int) =~= v@);
    out
}

/// The numbers of an embedding.
pub fn bytes_to_vec(b: &Vec<u8>) -> (r: Vec<Score>)
    ensures
        r@ == embedding_numbers(b@),
{
    let mut out: Vec<Score> = Vec::new();
    let len: usize = b.len();
    let n: usize = len / 4;
    let mut i: usize = 0;
    while i < n
        invariant
            i <= n,
            len == b@.len(),
            n == len / 4,
            out@.len() == i,
            forall|k: int| 0 <= k < i ==> #[trigger] out@[k] == embedding_numbers(b@)[k],
        decreases n - i,
    {
        let at: usize = 4 * i;
        let bits: u32 = b[at] as u32 + 256 * (b[at + 1] as u32) + 65536 * (b[at + 2] as u32)
            + 16777216 * (b[at + 3] as u32);
        out.push(Score { bits });
        i = i + 1;
    }
    assert(out@ =~= embedding_numbers(b@));
    out
}

/// Whether the bytes of an embedding hold as many numbers as a query has.
pub fn comparable(b: &Vec<u8>, dimensions: usize) -> (r: bool)
    ensures
        r == (embedding_numbers(b@).len() == dimensions),
{
    b.len() / 4 == dimensions
}

/// An embedding is read from its bytes as it was written.
pub proof fn law_an_embedding_is_read_as_written(v: Seq<Score>)
    ensures
        embedding_bytes(v).len() == 4 * v.len(),
        embedding_numbers(embedding_bytes(v)) == v,
    decreases v.len(),
{
    if v.len() > 0 {
        let init = v.drop_last();
        law_an_embedding_is_read_as_written(init);
        let before = embedding_bytes(init);
        let now = embedding_bytes(v);
        let n = v.last().bits;
        assert(now.len() == 4 * v.len());
        assert forall|i: int| 0 <= i < v.len() implies #[trigger] embedding_numbers(now)[i]
            == v[i] by {
            if i < init.len() {
                assert(embedding_numbers(before)[i] == init[i]);
                assert(number_at(now, 4 * i) == number_at(before, 4 * i));
            } else {
                let f = four_bytes(n);
                assert(now[4 * i] == f[0]);
                assert(now[4 * i + 1] == f[1]);
                assert(now[4 * i + 2] == f[2]);
                assert(now[4 * i + 3] == f[3]);
                assert(number_at(now, 4 * i) == n);
            }
        }
        assert(embedding_numbers(now) =~= v);
    } else {
        assert(embedding_numbers(embedding_bytes(v)) =~= v);
    }
}

/// The time of a visit, in any of the forms in which it is stored.
pub open spec fn visit_time(s: Seq<char>) -> Option<(int, int)> {
    match read_time(s, "%Y-%m-%dT%H:%M:%S%.f%#z"@) {
        Some(t) => Some(t),
        None => match read_time(s, "%Y-%m-%dT%H:%M:%SZ"@) {
            Some(t) => Some(t),
            None => read_time(s, "%Y-%m-%d %H:%M:%S"@),
        },
    }
}

/// The first of three readings of a time that is there.
pub fn first_reading(a: Option<Timestamp>, b: Option<Timestamp>, c: Option<Timestamp>) -> (r: Option<
    Timestamp,
>)
    ensures
        r == match a {
            Some(t) => Some(t),
            None => match b {
                Some(t) => Some(t),
                None => c,
            },
        },
{
    match a {
        Some(t) => Some(t),
        None => match b {
            Some(t) => Some(t),
            None => c,
        },
    }
}

/// The time of a visit, in any of the forms in which it is stored.
pub fn read_visit_time(s: &str) -> (r: Option<Timestamp>)
    ensures
        match r {
            Some(t) => visit_time(s@) == Some((t.secs as int, t.nanos as int)) && t.valid(),
            None => visit_time(s@) is None,
        },
{
    first_reading(
        read_as(s, "%Y-%m-%dT%H:%M:%S%.f%#z"),
        read_as(s, "%Y-%m-%dT%H:%M:%SZ"),
        read_as(s, "%Y-%m-%d %H:%M:%S"),
    )
}

/// A page with the time of its last visit.
#[verifier::ext_equal]
pub struct Seen {
    pub url: Seq<char>,
    pub title: Seq<char>,
    pub at: (int, int),
    pub embedding: Option<Seq<u8>>,
}

/// What a page with a time stands for.
pub open spec fn seen(p: PageForClustering) -> Seen {
    Seen {
        url: p.url@,
        title: p.title@,
        at: (p.visited_at.secs as int, p.visited_at.nanos as int),
        embedding: opt_bytes(p.embedding),
    }
}

/// The pages of a list whose time can be read.
pub open spec fn readable(list: Seq<Row>) -> Seq<Seen>
    decreases list.len(),
{
    if list.len() == 0 {
        Seq::empty()
    } else {
        let row = list.last();
        let before = readable(list.drop_last());
        match visit_time(row.last_visit_at.unwrap()) {
            Some(at) => before.push(
                Seen { url: row.url, title: row.title, at, embedding: row.embedding },
            ),
            None => before,
        }
    }
}

/// Which pages were visited at a time or later.
pub open spec fn recent_flags(list: Seq<Row>, cutoff: Seq<char>) -> Seq<bool> {
    list.map_values(|row: Row| visited_since(row, cutoff))
}

/// The sorting keys of pages: the first visited first.
pub open spec fn earliest_keys(list: Seq<Row>) -> Seq<Rank> {
    list.map_values(
        |row: Row| Rank { major: 0, minor: 0, text: codes(row.last_visit_at.unwrap()) },
    )
}

/// The pages of sessions: those visited at a time or later, in the order of time, as far as
/// their time can be read.
pub open spec fn pages_since(t: Tables, cutoff: Seq<char>) -> Seq<Seen> {
    let found = kept(t.pages, recent_flags(t.pages, cutoff));
    readable(arranged(found, earliest_keys(found)))
}

impl IndexStore {
    /// The pages visited at a time or later, in the order of time. Pages whose time cannot be
    /// read are passed over.
    pub fn get_pages_for_clustering(&self, cutoff: &str) -> (r: Vec<PageForClustering>)
        ensures
            r@.map_values(|p: PageForClustering| seen(p)) == pages_since(self@, cutoff@),
            forall|i: int| 0 <= i < r@.len() ==> (#[trigger] r@[i]).visited_at.valid(),
    {
        let ghost all = self@.pages;
        let ghost flags = recent_flags(all, cutoff@);
        let mut places: Vec<usize> = Vec::new();
        let mut keys: Vec<Key> = Vec::new();
        let mut i: usize = 0;
        let ghost f = |p: usize| all[p as int];
        assert(places@.map_values(f) =~= kept(all.take(0), flags));
        assert(ranks(keys@) =~= earliest_keys(kept(all.take(0), flags)));
        while i < self.pages.len()
            invariant
                i <= self.pages@.len(),
                all == self@.pages,
                flags == recent_flags(all, cutoff@),
                f == (|p: usize| all[p as int]),
                places@.map_values(f) == kept(all.take(i as int), flags),
                forall|k: int| 0 <= k < places@.len() ==> #[trigger] places@[k] < all.len(),
                forall|k: int|
                    0 <= k < places@.len() ==> all[#[trigger] places@[k] as int].last_visit_at is Some,
                ranks(keys@) == earliest_keys(kept(all.take(i as int), flags)),
            decreases self.pages@.len() - i,
        {
            let ghost t = all.take(i as int + 1);
            assert(t.drop_last() =~= all.take(i as int));
            assert(t.last() == self.pages@[i as int]@);
            if let Some(at) = &self.pages[i].last_visit_at {
                if !text_precedes(at.as_str(), cutoff) {
                    let ghost p0 = places@;
                    let ghost k0 = keys@;
                    let k: Key = Key::number_and_text(0, at.as_str());
                    places.push(i);
                    keys.push(k);
                    assert(places@.map_values(f) =~= p0.map_values(f).push(all[i as int]));
                    assert(ranks(keys@) =~= ranks(k0).push(k@));
                    assert(earliest_keys(kept(t, flags)) =~= earliest_keys(
                        kept(all.take(i as int), flags),
                    ).push(k@));
                }
            }
            i = i + 1;
        }
        assert(all.take(all.len() as int) =~= all);
        let ghost chosen = kept(all, flags);
        assert(places@.map_values(f).len() == places@.len());
        assert(ranks(keys@).len() == keys@.len());
        let ghost p1 = places@;
        let sorted: Vec<usize> = sort_by_keys(places, &keys);
        proof {
            lemma_arranged_map(p1, earliest_keys(chosen), f);
            crate::order::law_sorting_keeps_every_entry(p1, earliest_keys(chosen));
            assert forall|k: int| 0 <= k < sorted@.len() implies #[trigger] sorted@[k] < all.len()
                && all[sorted@[k] as int].last_visit_at is Some by {
                assert(sorted@.contains(sorted@[k]));
                assert(p1.contains(sorted@[k]));
                let m = choose|m: int| 0 <= m < p1.len() && p1[m] == sorted@[k];
                assert(p1[m] < all.len());
            }
        }
        let ghost line = sorted@.map_values(f);
        assert(line == arranged(chosen, earliest_keys(chosen)));
        let ghost g = |p: PageForClustering| seen(p);
        let mut out: Vec<PageForClustering> = Vec::new();
        let mut j: usize = 0;
        assert(out@.map_values(g) =~= readable(line.take(0)));
        while j < sorted.len()
            invariant
                j <= sorted@.len(),
                all == self@.pages,
                f == (|p: usize| all[p as int]),
                g == (|p: PageForClustering| seen(p)),
                line == sorted@.map_values(f),
                forall|k: int| 0 <= k < sorted@.len() ==> #[trigger] sorted@[k] < all.len(),
                forall|k: int|
                    0 <= k < sorted@.len() ==> all[#[trigger] sorted@[k] as int].last_visit_at is Some,
                out@.map_values(g) == readable(line.take(j as int)),
                forall|k: int| 0 <= k < out@.len() ==> (#[trigger] out@[k]).visited_at.valid(),
            decreases sorted@.len() - j,
        {
            let ghost t = line.take(j as int + 1);
            assert(t.drop_last() =~= line.take(j as int));
            assert(sorted@[j as int] < all.len());
            assert(t.last() == all[sorted@[j as int] as int]);
            let row: &PageRow = &self.pages[sorted[j]];
            assert(row@ == t.last());
            if let Some(at) = &row.last_visit_at {
                if let Some(visited_at) = read_visit_time(at.as_str()) {
                    let embedding: Option<Vec<u8>> = match &row.embedding {
                        Some(b) => {
                            let c: Vec<u8> = b.clone();
                            assert(c@ =~= b@);
                            Some(c)
                        },
                        None => None,
                    };
                    let p = PageForClustering {
                        url: row.url.clone(),
                        title: row.title.clone(),
                        visited_at,
                        embedding,
                    };
                    let ghost before = out@;
                    out.push(p);
                    assert(out@.map_values(g) =~= before.map_values(g).push(seen(p)));
                }
            }
            j = j + 1;
        }
        assert(line.take(line.len() as int) =~= line);
        out
    }
}

/// The closest pages come first.
pub proof fn law_closest_pages_lead(
    list: Seq<(Seq<char>, Seq<char>, Score)>,
    limit: u32,
    least: Score,
)
    ensures
        forall|i: int, j: int|
            0 <= i < j < closest(list, limit, least).len() ==> (#[trigger] closest(
                list,
                limit,
                least,
            )[i]).2.key() >= (#[trigger] closest(list, limit, least)[j]).2.key(),
{
    let near = kept(list, score_flags(list, least));
    lemma_arranged_by(
        near,
        score_keys(near),
        |v: (Seq<char>, Seq<char>, Score)| number_rank(-v.2.key()),
    );
}

/// The closest pages are all whose score is not less than the least, the closest first, as far as
/// the limit goes, and no other.
pub proof fn law_every_close_page_is_found(
    list: Seq<(Seq<char>, Seq<char>, Score)>,
    limit: u32,
    least: Score,
)
    ensures
        exists|whole: Seq<(Seq<char>, Seq<char>, Score)>|
            #[trigger] is_part(closest(list, limit, least), whole, 0, limit as nat) && sorted(
                list.len(),
                whole,
                |i: int| list[i].2.reaches(least),
                |i: int| list[i],
                |i: int, j: int| list[i].2.key() > list[j].2.key(),
            ),
{
    let flags = score_flags(list, least);
    let near = kept(list, flags);
    let whole = arranged(near, score_keys(near));
    let same = |v: (Seq<char>, Seq<char>, Score)| v;
    assert(whole.map_values(same) =~= whole);
    lemma_seq_before_total(Seq::empty(), Seq::empty());
    lemma_kept_and_sorted(
        list,
        flags,
        score_keys(near),
        |v: (Seq<char>, Seq<char>, Score)|
            Rank { major: -v.2.key(), minor: 0, text: Seq::empty() },
        same,
        whole,
        |i: int| list[i].2.reaches(least),
        |i: int| list[i],
        |i: int, j: int| list[i].2.key() > list[j].2.key(),
    );
    assert(is_part(closest(list, limit, least), whole, 0, limit as nat));
}

/// The pages of a time are those of the index that were visited then or later, the earliest
/// first, with what was read of them; those whose time cannot be read are passed over.
pub proof fn law_pages_of_a_time_are_all_there(t: Tables, cutoff: Seq<char>)
    ensures
        exists|found: Seq<Row>|
            #[trigger] sorted(
                t.pages.len(),
                found,
                visited_then(t, cutoff),
                page_at(t),
                earlier_in(t),
            ) && picked(
                found.len(),
                pages_since(t, cutoff),
                |i: int| visit_time(found[i].last_visit_at->0) is Some,
                |i: int|
                    Seen {
                        url: found[i].url,
                        title: found[i].title,
                        at: visit_time(found[i].last_visit_at->0)->0,
                        embedding: found[i].embedding,
                    },
            ),
{
    let flags = recent_flags(t.pages, cutoff);
    let kept_rows = kept(t.pages, flags);
    let found = arranged(kept_rows, earliest_keys(kept_rows));
    let same = |row: Row| row;
    assert(found.map_values(same) =~= found);
    lemma_kept_and_sorted(
        t.pages,
        flags,
        earliest_keys(kept_rows),
        |row: Row| Rank { major: 0, minor: 0, text: codes(row.last_visit_at.unwrap()) },
        same,
        found,
        visited_then(t, cutoff),
        page_at(t),
        earlier_in(t),
    );
    lemma_readable(found);
}

/// Which places of the index hold pages that were visited at a time or later.
pub open spec fn visited_then(t: Tables, cutoff: Seq<char>) -> spec_fn(int) -> bool {
    |i: int|
        t.pages[i].last_visit_at is Some && !text_before(t.pages[i].last_visit_at->0, cutoff)
}

/// The page at a place of the index.
pub open spec fn page_at(t: Tables) -> spec_fn(int) -> Row {
    |i: int| t.pages[i]
}

/// The last visit of one page of the index was before that of another.
pub open spec fn earlier_in(t: Tables) -> spec_fn(int, int) -> bool {
    |i: int, j: int|
        text_before(t.pages[i].last_visit_at->0, t.pages[j].last_visit_at->0)
}

proof fn lemma_readable(list: Seq<Row>)
    ensures
        picked(
            list.len(),
            readable(list),
            |i: int| visit_time(list[i].last_visit_at->0) is Some,
            |i: int|
                Seen {
                    url: list[i].url,
                    title: list[i].title,
                    at: visit_time(list[i].last_visit_at->0)->0,
                    embedding: list[i].embedding,
                },
        ),
    decreases list.len(),
{
    let chosen = |i: int| visit_time(list[i].last_visit_at->0) is Some;
    let gives = |i: int|
        Seen {
            url: list[i].url,
            title: list[i].title,
            at: visit_time(list[i].last_visit_at->0)->0,
            embedding: list[i].embedding,
        };
    if list.len() == 0 {
        lemma_picked_none(chosen, gives);
    } else {
        let init = list.drop_last();
        lemma_readable(init);
        lemma_picked_one_more(
            init.len(),
            readable(init),
            |i: int| visit_time(init[i].last_visit_at->0) is Some,
            |i: int|
                Seen {
                    url: init[i].url,
                    title: init[i].title,
                    at: visit_time(init[i].last_visit_at->0)->0,
                    embedding: init[i].embedding,
                },
            readable(list),
            chosen,
            gives,
        );
    }
}

/// An embedding is stored with the four bytes of each of its numbers, the lowest first.
pub proof fn law_the_lowest_byte_comes_first(v: Seq<Score>, i: int)
    requires
        0 <= i < v.len(),
    ensures
        embedding_bytes(v).len() == 4 * v.len(),
        embedding_bytes(v)[4 * i] as int == v[i].bits as int % 256,
        embedding_bytes(v)[4 * i + 1] as int == (v[i].bits as int / 256) % 256,
        embedding_bytes(v)[4 * i + 2] as int == (v[i].bits as int / 65536) % 256,
        embedding_bytes(v)[4 * i + 3] as int == v[i].bits as int / 16777216,
    decreases v.len(),
{
    law_an_embedding_is_read_as_written(v);
    let init = v.drop_last();
    law_an_embedding_is_read_as_written(init);
    if i < init.len() {
        law_the_lowest_byte_comes_first(init, i);
    }
}

/// The time of a visit is read as a full date with its zone, else as one in coordinated time, else
/// as a plain one.
pub proof fn law_times_are_read_in_any_form(s: Seq<char>)
    ensures
        ({
            let zoned = read_time(s, "%Y-%m-%dT%H:%M:%S%.f%#z"@);
            let utc = read_time(s, "%Y-%m-%dT%H:%M:%SZ"@);
            let plain = read_time(s, "%Y-%m-%d %H:%M:%S"@);
            &&& visit_time(s) is Some <==> zoned is Some || utc is Some || plain is Some
            &&& zoned is Some ==> visit_time(s) == zoned
            &&& zoned is None && utc is Some ==> visit_time(s) == utc
            &&& zoned is None && utc is None ==> visit_time(s) == plain
        }),
{
}

} // verus!
