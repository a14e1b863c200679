//! Lists of texts.

use vstd::prelude::*;
use vstd::string::*;

use crate::text::{same_text, texts};

verus! {

/// A list without repetitions: each text at its first place.
pub open spec fn distinct(s: Seq<Seq<char>>) -> Seq<Seq<char>>
    decreases s.len(),
{
    if s.len() == 0 {
        Seq::empty()
    } else {
        let before = distinct(s.drop_last());
        if before.contains(s.last()) {
            before
        } else {
            before.push(s.last())
        }
    }
}

/// How often `x` stands in a list.
pub open spec fn count_of(s: Seq<Seq<char>>, x: Seq<char>) -> nat
    decreases s.len(),
{
    if s.len() == 0 {
        0
    } else {
        count_of(s.drop_last(), x) + if s.last() == x {
            1nat
        } else {
            0
        }
    }
}

/// The place, among the first `n` of a list, of the text that stands in the whole list most
/// often; of several such texts, the first place of the first.
pub open spec fn best_place(s: Seq<Seq<char>>, n: int) -> int
    decreases n,
{
    if n <= 1 {
        0
    } else {
        let b = best_place(s, n - 1);
        if count_of(s, s[n - 1]) > count_of(s, s[b]) {
            n - 1
        } else {
            b
        }
    }
}

/// The text that stands in a list most often, the first of several.
pub open spec fn most_frequent(s: Seq<Seq<char>>) -> Option<Seq<char>> {
    if s.len() == 0 {
        None
    } else {
        Some(s[best_place(s, s.len() as int)])
    }
}

/// A list without repetitions holds the same texts, each once.
pub proof fn law_distinct_holds_each_text_once(s: Seq<Seq<char>>)
    ensures
        distinct(s).no_duplicates(),
        forall|x: Seq<char>| #[trigger] distinct(s).contains(x) <==> s.contains(x),
        distinct(s).len() <= s.len(),
    decreases s.len(),
{
    if s.len() > 0 {
        let init = s.drop_last();
        law_distinct_holds_each_text_once(init);
        let before = distinct(init);
        assert forall|x: Seq<char>| #[trigger] distinct(s).contains(x) <==> s.contains(x) by {
            if s.contains(x) {
                let i = choose|i: int| 0 <= i < s.len() && s[i] == x;
                if i < init.len() {
                    assert(init[i] == x);
                    assert(init.contains(x));
                    assert(before.contains(x));
                }
                if !before.contains(s.last()) {
                    let d = before.push(s.last());
                    if x == s.last() {
                        assert(d[before.len() as int] == x);
                    } else {
                        let k = choose|k: int| 0 <= k < before.len() && before[k] == x;
                        assert(d[k] == x);
                    }
                }
            }
            if distinct(s).contains(x) {
                let k = choose|k: int| 0 <= k < distinct(s).len() && distinct(s)[k] == x;
                if k < before.len() {
                    assert(before[k] == x);
                    assert(before.contains(x));
                    assert(init.contains(x));
                    let i = choose|i: int| 0 <= i < init.len() && init[i] == x;
                    assert(s[i] == x);
                } else {
                    assert(x == s.last());
                    assert(s[s.len() - 1] == x);
                }
            }
        }
    } else {
        assert(distinct(s) =~= s);
    }
}

/// The most frequent text of a list stands in it, and no other stands in it more often.
pub proof fn law_the_most_frequent_text(s: Seq<Seq<char>>)
    requires
        s.len() > 0,
    ensures
        most_frequent(s) is Some,
        s.contains(most_frequent(s).unwrap()),
        forall|x: Seq<char>|
            #[trigger] s.contains(x) ==> count_of(s, x) <= count_of(s, most_frequent(s).unwrap()),
{
    lemma_best_place(s, s.len() as int);
    let b = best_place(s, s.len() as int);
    assert(s[b] == most_frequent(s).unwrap());
    assert forall|x: Seq<char>| #[trigger] s.contains(x) implies count_of(s, x) <= count_of(
        s,
        s[b],
    ) by {
        let i = choose|i: int| 0 <= i < s.len() && s[i] == x;
        assert(count_of(s, s[i]) <= count_of(s, s[b]));
    }
}

proof fn lemma_best_place(s: Seq<Seq<char>>, n: int)
    requires
        1 <= n <= s.len(),
    ensures
        0 <= best_place(s, n) < n,
        forall|i: int|
            0 <= i < n ==> count_of(s, #[trigger] s[i]) <= count_of(s, s[best_place(s, n)]),
    decreases n,
{
    if n > 1 {
        lemma_best_place(s, n - 1);
    }
}

/// Adds a copy of `s` at the end of a list.
pub fn push_text(list: &mut Vec<String>, s: &str)
    ensures
        texts(final(list)@) == texts(old(list)@).push(s@),
        final(list)@.len() == old(list)@.len() + 1,
{
    let ghost before = list@;
    list.push(s.to_owned());
    assert(texts(list@) =~= texts(before).push(s@));
}

/// Whether a list holds a text.
pub fn list_contains(list: &Vec<String>, x: &str) -> (r: bool)
    ensures
        r == texts(list@).contains(x@),
{
    let mut i: usize = 0;
    while i < list.len()
        invariant
            i <= list.len(),
            forall|k: int| 0 <= k < i ==> (#[trigger] list@[k])@ != x@,
        decreases list.len() - i,
    {
        if same_text(list[i].as_str(), x) {
            assert(texts(list@)[i as int] == x@);
            return true;
        }
        i = i + 1;
    }
    assert(!texts(list@).contains(x@)) by {
        if texts(list@).contains(x@) {
            let k = choose|k: int| 0 <= k < texts(list@).len() && texts(list@)[k] == x@;
            assert(list@[k]@ == x@);
        }
    }
    false
}

/// Adds a text to a list unless it stands there already.
pub fn push_distinct(list: &mut Vec<String>, x: &str)
    ensures
        texts(final(list)@) == if texts(old(list)@).contains(x@) {
            texts(old(list)@)
        } else {
            texts(old(list)@).push(x@)
        },
{
    if !list_contains(list, x) {
        push_text(list, x);
    }
}

/// A list without repetitions.
pub fn distinct_texts(list: &Vec<String>) -> (r: Vec<String>)
    ensures
        texts(r@) == distinct(texts(list@)),
{
    let ghost all = texts(list@);
    let mut out: Vec<String> = Vec::new();
    let mut i: usize = 0;
    assert(texts(out@) =~= distinct(all.take(0)));
    while i < list.len()
        invariant
            i <= list.len(),
            all == texts(list@),
            texts(out@) == distinct(all.take(i as int)),
        decreases list.len() - i,
    {
        let ghost t = all.take(i as int + 1);
        assert(t.drop_last() =~= all.take(i as int));
        assert(t.last() == list@[i as int]@);
        push_distinct(&mut out, list[i].as_str());
        i = i + 1;
    }
    assert(all.take(all.len() as int) =~= all);
    out
}

/// How often a text stands in a list.
pub fn count(list: &Vec<String>, x: &str) -> (r: usize)
    ensures
        r == count_of(texts(list@), x@),
{
    let ghost all = texts(list@);
    let mut n: usize = 0;
    let mut i: usize = 0;
    while i < list.len()
        invariant
            i <= list.len(),
            all == texts(list@),
            n == count_of(all.take(i as int), x@),
            n <= i,
        decreases list.len() - i,
    {
        let ghost t = all.take(i as int + 1);
        assert(t.drop_last() =~= all.take(i as int));
        assert(t.last() == list@[i as int]@);
        if same_text(list[i].as_str(), x) {
            n = n + 1;
        }
        i = i + 1;
    }
    assert(all.take(all.len() as int) =~= all);
    n
}

/// The text that stands in a list most often, the first of several.
pub fn find_most_frequent(list: &Vec<String>) -> (r: Option<String>)
    ensures
        match r {
            Some(h) => most_frequent(texts(list@)) == Some(h@),
            None => most_frequent(texts(list@)) is None,
        },
{
    if list.len() == 0 {
        return None;
    }
    let ghost all = texts(list@);
    let mut best: usize = 0;
    let mut most: usize = count(list, list[0].as_str());
    let mut i: usize = 1;
    assert(all[0] == list@[0]@);
    while i < list.len()
        invariant
            1 <= i <= list.len(),
            all == texts(list@),
            best < i,
            best == best_place(all, i as int),
            most == count_of(all, all[best as int]),
        decreases list.len() - i,
    {
        let n: usize = count(list, list[i].as_str());
        assert(all[i as int] == list@[i as int]@);
        if n > most {
            best = i;
            most = n;
        }
        i = i + 1;
    }
    assert(all[best as int] == list@[best as int]@);
    Some(list[best].clone())
}

/// `places` lists, in order, the places below `n` whose entries are chosen, and `out` has what
/// each of them gives.
pub open spec fn picks<B>(
    n: nat,
    out: Seq<B>,
    chosen: spec_fn(int) -> bool,
    gives: spec_fn(int) -> B,
    places: Seq<int>,
) -> bool {
    &&& places.len() == out.len()
    &&& forall|a: int|
        0 <= a < places.len() ==> 0 <= #[trigger] places[a] < n && chosen(places[a]) && out[a]
            == gives(places[a])
    &&& forall|a: int, b: int|
        0 <= a < b < places.len() ==> #[trigger] places[a] < #[trigger] places[b]
    &&& forall|i: int| 0 <= i < n && chosen(i) ==> #[trigger] places.contains(i)
}

/// `out` has, in order and once each, what the chosen ones of `n` places give, and nothing else.
pub open spec fn picked<B>(
    n: nat,
    out: Seq<B>,
    chosen: spec_fn(int) -> bool,
    gives: spec_fn(int) -> B,
) -> bool {
    exists|places: Seq<int>| #[trigger] picks(n, out, chosen, gives, places)
}

/// Nothing is chosen where there are no places.
pub proof fn lemma_picked_none<B>(chosen: spec_fn(int) -> bool, gives: spec_fn(int) -> B)
    ensures
        picked(0, Seq::<B>::empty(), chosen, gives),
{
    assert(picks(0, Seq::<B>::empty(), chosen, gives, Seq::empty()));
}

/// One place more: what it gives comes behind, if it is chosen.
pub proof fn lemma_picked_one_more<B>(
    n: nat,
    before: Seq<B>,
    chosen_before: spec_fn(int) -> bool,
    gives_before: spec_fn(int) -> B,
    out: Seq<B>,
    chosen: spec_fn(int) -> bool,
    gives: spec_fn(int) -> B,
)
    requires
        picked(n, before, chosen_before, gives_before),
        forall|i: int| 0 <= i < n ==> #[trigger] chosen(i) == chosen_before(i),
        forall|i: int| 0 <= i < n && chosen(i) ==> #[trigger] gives(i) == gives_before(i),
        chosen(n as int) ==> out == before.push(gives(n as int)),
        !chosen(n as int) ==> out == before,
    ensures
        picked(n + 1, out, chosen, gives),
{
    let old_places = choose|places: Seq<int>|
        #[trigger] picks(n, before, chosen_before, gives_before, places);
    let places = if chosen(n as int) {
        old_places.push(n as int)
    } else {
        old_places
    };
    assert forall|a: int| 0 <= a < places.len() implies 0 <= #[trigger] places[a] < n + 1 && chosen(
        places[a],
    ) && out[a] == gives(places[a]) by {
        if a < old_places.len() {
            assert(places[a] == old_places[a]);
            assert(chosen(places[a]) == chosen_before(places[a]));
            assert(gives(places[a]) == gives_before(places[a]));
        }
    }
    assert forall|i: int| 0 <= i < n + 1 && chosen(i) implies #[trigger] places.contains(i) by {
        if i < n {
            assert(chosen(i) == chosen_before(i));
            assert(old_places.contains(i));
            let a = choose|a: int| 0 <= a < old_places.len() && old_places[a] == i;
            assert(places[a] == i);
        } else {
            assert(places[places.len() - 1] == i);
        }
    }
    assert(picks(n + 1, out, chosen, gives, places));
}

/// One of the chosen places below `n` gives `x`.
pub open spec fn given_by<B>(
    n: nat,
    x: B,
    chosen: spec_fn(int) -> bool,
    gives: spec_fn(int) -> B,
) -> bool {
    exists|i: int| 0 <= i < n && #[trigger] chosen(i) && x == gives(i)
}

/// What every chosen place gives is there, and what is there is given by a chosen place.
pub proof fn lemma_picked<B>(
    n: nat,
    out: Seq<B>,
    chosen: spec_fn(int) -> bool,
    gives: spec_fn(int) -> B,
)
    requires
        picked(n, out, chosen, gives),
    ensures
        out.len() <= n,
        forall|i: int| 0 <= i < n && #[trigger] chosen(i) ==> out.contains(gives(i)),
        forall|a: int| 0 <= a < out.len() ==> given_by(n, #[trigger] out[a], chosen, gives),
{
    let places = choose|places: Seq<int>| #[trigger] picks(n, out, chosen, gives, places);
    assert forall|i: int| 0 <= i < n && #[trigger] chosen(i) implies out.contains(gives(i)) by {
        assert(places.contains(i));
        let a = choose|a: int| 0 <= a < places.len() && places[a] == i;
        assert(out[a] == gives(i));
    }
    assert forall|a: int| 0 <= a < out.len() implies given_by(n, #[trigger] out[a], chosen, gives) by {
        assert(chosen(places[a]));
    }
    lemma_rising(places, n as int);
}

/// Rising numbers below `n` are at most `n`.
proof fn lemma_rising(places: Seq<int>, n: int)
    requires
        n >= 0,
        forall|a: int| 0 <= a < places.len() ==> 0 <= #[trigger] places[a] < n,
        forall|a: int, b: int|
            0 <= a < b < places.len() ==> #[trigger] places[a] < #[trigger] places[b],
    ensures
        places.len() <= n,
    decreases n,
{
    if places.len() > 0 {
        let init = places.drop_last();
        assert(0 <= places[places.len() - 1] < n);
        assert forall|a: int| 0 <= a < init.len() implies 0 <= #[trigger] init[a] < n - 1 by {
            assert(places[a] < places[places.len() - 1]);
        }
        lemma_rising(init, n - 1);
    }
}

/// Without repetitions, a list has each of its texts at the place where it first stands, in the
/// order of these places.
pub proof fn law_distinct_keeps_first_places(s: Seq<Seq<char>>)
    ensures
        picked(
            s.len(),
            distinct(s),
            |i: int| forall|k: int| 0 <= k < i ==> #[trigger] s[k] != s[i],
            |i: int| s[i],
        ),
    decreases s.len(),
{
    let chosen = |i: int| forall|k: int| 0 <= k < i ==> #[trigger] s[k] != s[i];
    let gives = |i: int| s[i];
    if s.len() == 0 {
        lemma_picked_none(chosen, gives);
    } else {
        let init = s.drop_last();
        law_distinct_keeps_first_places(init);
        law_distinct_holds_each_text_once(init);
        let c0 = |i: int| forall|k: int| 0 <= k < i ==> #[trigger] init[k] != init[i];
        let n = init.len() as int;
        assert forall|i: int| 0 <= i < n implies #[trigger] chosen(i) == c0(i) by {
            if chosen(i) {
                assert forall|k: int| 0 <= k < i implies #[trigger] init[k] != init[i] by {
                    assert(s[k] != s[i]);
                }
            } else {
                let k = choose|k: int| 0 <= k < i && s[k] == s[i];
                assert(init[k] == init[i]);
            }
        }
        if init.contains(s.last()) {
            let k = choose|k: int| 0 <= k < init.len() && init[k] == s.last();
            assert(s[k] == s[n]);
            assert(!chosen(n));
        } else {
            assert forall|k: int| 0 <= k < n implies #[trigger] s[k] != s[n] by {
                assert(init.contains(init[k]));
            }
            assert(chosen(n));
        }
        lemma_picked_one_more(
            init.len(),
            distinct(init),
            c0,
            |i: int| init[i],
            distinct(s),
            chosen,
            gives,
        );
    }
}

/// How often a text stands in a list is how many places of the list hold it.
pub proof fn law_a_count_is_of_places(s: Seq<Seq<char>>, x: Seq<char>)
    ensures
        count_of(s, x) == s.filter(|y: Seq<char>| y == x).len(),
    decreases s.len(),
{
    reveal(Seq::filter);
    if s.len() > 0 {
        law_a_count_is_of_places(s.drop_last(), x);
    }
}

/// Of several texts that stand in a list most often, the one that stands there first is taken.
pub proof fn law_the_first_of_the_most_frequent(s: Seq<Seq<char>>, i: int)
    requires
        0 <= i < s.len(),
        forall|k: int| 0 <= k <= i ==> #[trigger] s[k] != most_frequent(s).unwrap(),
    ensures
        count_of(s, s[i]) < count_of(s, most_frequent(s).unwrap()),
{
    lemma_best_place(s, s.len() as int);
    lemma_best_place_first(s, s.len() as int);
    let b = best_place(s, s.len() as int);
    if b <= i {
        assert(s[b] != most_frequent(s).unwrap());
    }
}

proof fn lemma_best_place_first(s: Seq<Seq<char>>, n: int)
    requires
        1 <= n <= s.len(),
    ensures
        0 <= best_place(s, n) < n,
        forall|i: int|
            0 <= i < best_place(s, n) ==> count_of(s, #[trigger] s[i]) < count_of(
                s,
                s[best_place(s, n)],
            ),
    decreases n,
{
    if n > 1 {
        lemma_best_place_first(s, n - 1);
        lemma_best_place(s, n - 1);
    }
}

} // verus!
