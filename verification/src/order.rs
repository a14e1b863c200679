//! Stable sorting by keys.

use vstd::prelude::*;

use crate::lists::{given_by, lemma_picked, lemma_picked_none, lemma_picked_one_more, picked, picks};

verus! {

/// What a sorting key stands for: a number, a second number for ties of the first, and a
/// sequence for ties of both.
#[verifier::ext_equal]
pub struct Rank {
    pub major: int,
    pub minor: int,
    pub text: Seq<int>,
}

/// A sorting key.
pub struct Key {
    pub major: i128,
    pub minor: i128,
    pub text: Vec<i64>,
}

impl View for Key {
    type V = Rank;

    open spec fn view(&self) -> Rank {
        Rank {
            major: self.major as int,
            minor: self.minor as int,
            text: Seq::new(self.text@.len(), |i: int| self.text@[i] as int),
        }
    }
}

/// `s` stands before `t`, comparing from the front: a proper prefix stands first.
pub open spec fn seq_before(s: Seq<int>, t: Seq<int>) -> bool
    decreases s.len(),
{
    if t.len() == 0 {
        false
    } else if s.len() == 0 {
        true
    } else if s[0] != t[0] {
        s[0] < t[0]
    } else {
        seq_before(s.drop_first(), t.drop_first())
    }
}

/// `a` stands strictly before `b`.
pub open spec fn rank_before(a: Rank, b: Rank) -> bool {
    if a.major != b.major {
        a.major < b.major
    } else if a.minor != b.minor {
        a.minor < b.minor
    } else {
        seq_before(a.text, b.text)
    }
}

/// The key of a number, smallest first.
pub open spec fn number_rank(n: int) -> Rank {
    Rank { major: n, minor: 0, text: Seq::empty() }
}

/// The code points of a text: texts in ascending order.
pub open spec fn codes(s: Seq<char>) -> Seq<int> {
    Seq::new(s.len(), |i: int| s[i] as u32 as int)
}

/// The sequence that puts texts in descending order: the code points negated, with an end mark
/// that is larger than each of them.
pub open spec fn codes_down(s: Seq<char>) -> Seq<int> {
    Seq::new(s.len(), |i: int| -(s[i] as u32 as int)).push(1)
}

/// Text `s` stands before text `t` in the order of code points.
pub open spec fn text_before(s: Seq<char>, t: Seq<char>) -> bool {
    seq_before(codes(s), codes(t))
}

/// The view of a list of keys.
pub open spec fn ranks(keys: Seq<Key>) -> Seq<Rank> {
    Seq::new(keys.len(), |i: int| keys[i]@)
}

/// Position `i` of a list comes before position `j` in its stable order: by key, and where the
/// keys are the same, by position.
pub open spec fn goes_before(keys: Seq<Rank>, i: int, j: int) -> bool {
    rank_before(keys[i], keys[j]) || (!rank_before(keys[j], keys[i]) && i < j)
}

/// `order` lists positions from `lo` up to `hi`, each once, in stable order.
pub open spec fn orders(keys: Seq<Rank>, order: Seq<int>, lo: int, hi: int) -> bool {
    &&& order.len() == hi - lo
    &&& forall|a: int| 0 <= a < order.len() ==> lo <= #[trigger] order[a] < hi
    &&& forall|a: int, b: int|
        0 <= a < b < order.len() ==> goes_before(keys, #[trigger] order[a], #[trigger] order[b])
    &&& forall|i: int| lo <= i < hi ==> #[trigger] order.contains(i)
}

/// The positions of a list in the stable order of their keys.
pub open spec fn stable_order(keys: Seq<Rank>) -> Seq<int> {
    choose|order: Seq<int>| orders(keys, order, 0, keys.len() as int)
}

/// A list in the stable order of its keys.
pub open spec fn arranged<T>(items: Seq<T>, keys: Seq<Rank>) -> Seq<T> {
    Seq::new(items.len(), |i: int| items[stable_order(keys)[i]])
}

/// No sequence stands before itself, and of two that differ exactly one stands before the other.
pub proof fn lemma_seq_before_total(s: Seq<int>, t: Seq<int>)
    ensures
        !seq_before(s, s),
        seq_before(s, t) ==> !seq_before(t, s),
        s != t ==> seq_before(s, t) || seq_before(t, s),
    decreases s.len(),
{
    if s.len() > 0 && t.len() > 0 {
        lemma_seq_before_total(s.drop_first(), t.drop_first());
        if s[0] == t[0] && s.drop_first() == t.drop_first() {
            assert(s =~= seq![s[0]] + s.drop_first());
            assert(t =~= seq![t[0]] + t.drop_first());
        }
    } else {
        if s.len() > 0 {
            lemma_seq_before_total(s.drop_first(), s.drop_first());
        }
        if s.len() == 0 && t.len() == 0 {
            assert(s =~= t);
        }
    }
}

/// The order of sequences is transitive.
pub proof fn lemma_seq_before_transitive(s: Seq<int>, t: Seq<int>, u: Seq<int>)
    requires
        seq_before(s, t),
        seq_before(t, u),
    ensures
        seq_before(s, u),
    decreases s.len(),
{
    if s.len() > 0 && t.len() > 0 && u.len() > 0 && s[0] == t[0] && t[0] == u[0] {
        lemma_seq_before_transitive(s.drop_first(), t.drop_first(), u.drop_first());
    }
}

/// Of two keys that differ exactly one stands before the other.
pub proof fn lemma_rank_total(a: Rank, b: Rank)
    ensures
        !rank_before(a, a),
        rank_before(a, b) ==> !rank_before(b, a),
        a != b ==> rank_before(a, b) || rank_before(b, a),
{
    lemma_seq_before_total(a.text, b.text);
}

/// The order of keys is transitive.
pub proof fn lemma_rank_transitive(a: Rank, b: Rank, c: Rank)
    requires
        rank_before(a, b),
        rank_before(b, c),
    ensures
        rank_before(a, c),
{
    if a.major == b.major && b.major == c.major && a.minor == b.minor && b.minor == c.minor {
        lemma_seq_before_transitive(a.text, b.text, c.text);
    }
}

/// The stable order of positions is transitive, and holds one way between two positions.
pub proof fn lemma_goes_before(keys: Seq<Rank>, i: int, j: int, k: int)
    ensures
        !goes_before(keys, i, i),
        i != j ==> (goes_before(keys, i, j) <==> !goes_before(keys, j, i)),
        goes_before(keys, i, j) && goes_before(keys, j, k) ==> goes_before(keys, i, k),
{
    lemma_rank_total(keys[i], keys[j]);
    lemma_rank_total(keys[j], keys[k]);
    lemma_rank_total(keys[i], keys[k]);
    if rank_before(keys[i], keys[j]) && rank_before(keys[j], keys[k]) {
        lemma_rank_transitive(keys[i], keys[j], keys[k]);
    }
}

/// There is but one stable order: two lists of positions that both are in it are the same.
pub proof fn law_the_stable_order_is_unique(keys: Seq<Rank>, a: Seq<int>, b: Seq<int>, lo: int, hi: int)
    requires
        orders(keys, a, lo, hi),
        orders(keys, b, lo, hi),
    ensures
        a == b,
{
    assert forall|n: int| 0 <= n <= a.len() implies #[trigger] a.take(n) == b.take(n) by {
        lemma_same_prefix(keys, a, b, lo, hi, n);
    }
    assert(a.take(a.len() as int) == b.take(a.len() as int));
    assert(a =~= a.take(a.len() as int));
    assert(b =~= b.take(b.len() as int));
}

proof fn lemma_same_prefix(keys: Seq<Rank>, a: Seq<int>, b: Seq<int>, lo: int, hi: int, n: int)
    requires
        orders(keys, a, lo, hi),
        orders(keys, b, lo, hi),
        0 <= n <= a.len(),
    ensures
        a.take(n) == b.take(n),
    decreases n,
{
    if n > 0 {
        lemma_same_prefix(keys, a, b, lo, hi, n - 1);
        let m = n - 1;
        assert forall|k: int| 0 <= k < m implies #[trigger] a[k] == b[k] by {
            assert(a.take(m)[k] == b.take(m)[k]);
        }
        if a[m] != b[m] {
            assert(b.contains(a[m]));
            let p = choose|p: int| 0 <= p < b.len() && b[p] == a[m];
            assert(a.contains(b[m]));
            let q = choose|q: int| 0 <= q < a.len() && a[q] == b[m];
            lemma_goes_before(keys, a[m], a[m], a[m]);
            lemma_goes_before(keys, b[m], b[m], b[m]);
            if p < m {
                assert(a[p] == b[p]);
                assert(goes_before(keys, a[p], a[m]));
            }
            if q < m {
                assert(b[q] == a[q]);
                assert(goes_before(keys, b[q], b[m]));
            }
            assert(goes_before(keys, b[m], b[p]));
            assert(goes_before(keys, a[m], a[q]));
            lemma_goes_before(keys, a[m], b[m], a[m]);
        }
        assert(a.take(n) =~= a.take(m).push(a[m]));
        assert(b.take(n) =~= b.take(m).push(b[m]));
    }
}

/// The descending code of texts turns their order around.
pub proof fn law_codes_down_reverse_the_order(s: Seq<char>, t: Seq<char>)
    ensures
        seq_before(codes_down(s), codes_down(t)) == text_before(t, s),
    decreases s.len(),
{
    let ds = codes_down(s);
    let dt = codes_down(t);
    if s.len() > 0 && t.len() > 0 {
        law_codes_down_reverse_the_order(s.drop_first(), t.drop_first());
        assert(ds.drop_first() =~= codes_down(s.drop_first()));
        assert(dt.drop_first() =~= codes_down(t.drop_first()));
        assert(codes(s).drop_first() =~= codes(s.drop_first()));
        assert(codes(t).drop_first() =~= codes(t.drop_first()));
        assert(ds[0] == -(s[0] as u32 as int));
        assert(dt[0] == -(t[0] as u32 as int));
        assert(codes(s)[0] == s[0] as u32 as int);
        assert(codes(t)[0] == t[0] as u32 as int);
    } else if s.len() == 0 && t.len() == 0 {
        assert(ds =~= dt);
        lemma_seq_before_total(ds, dt);
    } else if s.len() == 0 {
        assert(ds[0] == 1);
        assert(dt[0] == -(t[0] as u32 as int));
        assert(!text_before(t, s));
    } else {
        assert(dt[0] == 1);
        assert(ds[0] == -(s[0] as u32 as int));
        assert(text_before(t, s));
    }
}

/// Whether one sequence stands before another.
fn sequence_before(s: &Vec<i64>, t: &Vec<i64>) -> (r: bool)
    ensures
        r == seq_before(
            Seq::new(s@.len(), |i: int| s@[i] as int),
            Seq::new(t@.len(), |i: int| t@[i] as int),
        ),
{
    let ghost a = Seq::new(s@.len(), |i: int| s@[i] as int);
    let ghost b = Seq::new(t@.len(), |i: int| t@[i] as int);
    let mut i: usize = 0;
    assert(a.skip(0) =~= a);
    assert(b.skip(0) =~= b);
    while i < s.len() && i < t.len()
        invariant
            i <= s.len(),
            i <= t.len(),
            a == Seq::new(s@.len(), |i: int| s@[i] as int),
            b == Seq::new(t@.len(), |i: int| t@[i] as int),
            seq_before(a, b) == seq_before(a.skip(i as int), b.skip(i as int)),
        decreases s.len() - i,
    {
        assert(a.skip(i as int)[0] == s@[i as int]);
        assert(b.skip(i as int)[0] == t@[i as int]);
        if s[i] != t[i] {
            return s[i] < t[i];
        }
        assert(a.skip(i as int).drop_first() =~= a.skip(i as int + 1));
        assert(b.skip(i as int).drop_first() =~= b.skip(i as int + 1));
        i = i + 1;
    }
    i < t.len()
}

impl Key {
    /// The key of a number, smallest first.
    pub fn number(n: i128) -> (r: Key)
        ensures
            r@ == number_rank(n as int),
    {
        let r = Key { major: n, minor: 0, text: Vec::new() };
        assert(r@.text =~= Seq::empty());
        r
    }

    /// The key of two numbers, the second for ties of the first.
    pub fn numbers(n: i128, m: i128) -> (r: Key)
        ensures
            r@ == (Rank { major: n as int, minor: m as int, text: Seq::empty() }),
    {
        let r = Key { major: n, minor: m, text: Vec::new() };
        assert(r@.text =~= Seq::empty());
        r
    }

    /// The key of a number and, for ties, a text in ascending order.
    pub fn number_and_text(n: i128, s: &str) -> (r: Key)
        ensures
            r@ == (Rank { major: n as int, minor: 0, text: codes(s@) }),
    {
        let mut v: Vec<i64> = Vec::new();
        let chars: Vec<char> = crate::text::chars_of(s);
        let mut i: usize = 0;
        while i < chars.len()
            invariant
                i <= chars.len(),
                v@.len() == i,
                forall|k: int| 0 <= k < i ==> #[trigger] v@[k] == chars@[k] as u32 as int,
            decreases chars.len() - i,
        {
            v.push(chars[i] as u32 as i64);
            i = i + 1;
        }
        let r = Key { major: n, minor: 0, text: v };
        assert(r@.text =~= codes(s@));
        r
    }

    /// The key of a number and, for ties, a text in descending order.
    pub fn number_and_text_down(n: i128, s: &str) -> (r: Key)
        ensures
            r@ == (Rank { major: n as int, minor: 0, text: codes_down(s@) }),
    {
        let mut v: Vec<i64> = Vec::new();
        let chars: Vec<char> = crate::text::chars_of(s);
        let mut i: usize = 0;
        while i < chars.len()
            invariant
                i <= chars.len(),
                v@.len() == i,
                forall|k: int| 0 <= k < i ==> #[trigger] v@[k] == -(chars@[k] as u32 as int),
            decreases chars.len() - i,
        {
            v.push(-(chars[i] as u32 as i64));
            i = i + 1;
        }
        v.push(1);
        let r = Key { major: n, minor: 0, text: v };
        assert(r@.text =~= codes_down(s@));
        r
    }

    /// Whether this key stands strictly before another.
    pub fn before(&self, other: &Key) -> (r: bool)
        ensures
            r == rank_before(self@, other@),
    {
        if self.major != other.major {
            self.major < other.major
        } else if self.minor != other.minor {
            self.minor < other.minor
        } else {
            sequence_before(&self.text, &other.text)
        }
    }
}

/// A list of positions as integers.
pub open spec fn positions(v: Seq<usize>) -> Seq<int> {
    Seq::new(v.len(), |i: int| v[i] as int)
}

/// Merges two ordered lists of neighbouring ranges of positions.
fn merge(
    keys: &Vec<Key>,
    a: &Vec<usize>,
    b: &Vec<usize>,
    Ghost(lo): Ghost<int>,
    Ghost(mid): Ghost<int>,
    Ghost(hi): Ghost<int>,
) -> (r: Vec<usize>)
    requires
        0 <= lo <= mid <= hi <= keys@.len(),
        orders(ranks(keys@), positions(a@), lo, mid),
        orders(ranks(keys@), positions(b@), mid, hi),
    ensures
        orders(ranks(keys@), positions(r@), lo, hi),
{
    let ghost ks = ranks(keys@);
    let ghost pa = positions(a@);
    let ghost pb = positions(b@);
    let mut out: Vec<usize> = Vec::new();
    let mut i: usize = 0;
    let mut j: usize = 0;
    while i < a.len() || j < b.len()
        invariant
            0 <= lo <= mid <= hi <= keys@.len(),
            ks == ranks(keys@),
            pa == positions(a@),
            pb == positions(b@),
            orders(ks, pa, lo, mid),
            orders(ks, pb, mid, hi),
            i <= a.len(),
            j <= b.len(),
            out@.len() == i + j,
            forall|k: int| 0 <= k < out@.len() ==> lo <= #[trigger] out@[k] < hi,
            forall|k: int, l: int|
                0 <= k < l < out@.len() ==> goes_before(ks, #[trigger] out@[k] as int, #[trigger] out@[l] as int),
            forall|k: int, l: int|
                0 <= k < out@.len() && i <= l < a@.len() ==> goes_before(ks, #[trigger] out@[k] as int, #[trigger] pa[l]),
            forall|k: int, l: int|
                0 <= k < out@.len() && j <= l < b@.len() ==> goes_before(ks, #[trigger] out@[k] as int, #[trigger] pb[l]),
            forall|l: int| 0 <= l < i ==> positions(out@).contains(#[trigger] pa[l]),
            forall|l: int| 0 <= l < j ==> positions(out@).contains(#[trigger] pb[l]),
        decreases a.len() - i + b.len() - j,
    {
        let ghost before = out@;
        let first: bool = if i == a.len() {
            false
        } else if j == b.len() {
            true
        } else {
            assert(pa[i as int] < mid && mid <= pb[j as int]);
            assert(lo <= pa[i as int]);
            assert(pb[j as int] < hi);
            !keys[b[j]].before(&keys[a[i]])
        };
        if first {
            assert(lo <= pa[i as int] < mid);
            if j < b.len() {
                assert(goes_before(ks, pa[i as int], pb[j as int]));
                assert forall|l: int| j <= l < b@.len() implies goes_before(ks, pa[i as int], #[trigger] pb[l]) by {
                    lemma_goes_before(ks, pa[i as int], pb[j as int], pb[l]);
                }
            }
            out.push(a[i]);
            i = i + 1;
            assert(positions(out@)[before.len() as int] == pa[i - 1]);
        } else {
            assert(mid <= pb[j as int] < hi);
            if i < a.len() {
                assert(goes_before(ks, pb[j as int], pa[i as int]));
                assert forall|l: int| i <= l < a@.len() implies goes_before(ks, pb[j as int], #[trigger] pa[l]) by {
                    lemma_goes_before(ks, pb[j as int], pa[i as int], pa[l]);
                }
            }
            out.push(b[j]);
            j = j + 1;
            assert(positions(out@)[before.len() as int] == pb[j - 1]);
        }
        assert forall|x: int| #[trigger] positions(before).contains(x) implies positions(out@).contains(x) by {
            let k = choose|k: int| 0 <= k < positions(before).len() && positions(before)[k] == x;
            assert(positions(out@)[k] == x);
        }
    }
    assert forall|x: int| lo <= x < hi implies #[trigger] positions(out@).contains(x) by {
        if x < mid {
            assert(pa.contains(x));
            let l = choose|l: int| 0 <= l < pa.len() && pa[l] == x;
        } else {
            assert(pb.contains(x));
            let l = choose|l: int| 0 <= l < pb.len() && pb[l] == x;
        }
    }
    out
}

/// The positions from `lo` up to `hi`, in the stable order of their keys.
fn sort_range(keys: &Vec<Key>, lo: usize, hi: usize) -> (r: Vec<usize>)
    requires
        lo <= hi <= keys@.len(),
    ensures
        orders(ranks(keys@), positions(r@), lo as int, hi as int),
    decreases hi - lo,
{
    if hi - lo < 2 {
        let mut r: Vec<usize> = Vec::new();
        if hi - lo == 1 {
            r.push(lo);
            assert(positions(r@)[0] == lo);
        }
        return r;
    }
    let mid: usize = lo + (hi - lo) / 2;
    let a: Vec<usize> = sort_range(keys, lo, mid);
    let b: Vec<usize> = sort_range(keys, mid, hi);
    merge(keys, &a, &b, Ghost(lo as int), Ghost(mid as int), Ghost(hi as int))
}

/// The positions of a list in the stable order of their keys.
pub fn order_of(keys: &Vec<Key>) -> (r: Vec<usize>)
    ensures
        orders(ranks(keys@), positions(r@), 0, keys@.len() as int),
        positions(r@) == stable_order(ranks(keys@)),
{
    let r: Vec<usize> = sort_range(keys, 0, keys.len());
    proof {
        let ks = ranks(keys@);
        assert(orders(ks, positions(r@), 0, ks.len() as int));
        law_the_stable_order_is_unique(ks, positions(r@), stable_order(ks), 0, ks.len() as int);
    }
    r
}

/// Every list has a stable order of its positions.
pub proof fn lemma_stable_order(keys: Seq<Rank>)
    ensures
        orders(keys, stable_order(keys), 0, keys.len() as int),
{
    lemma_order_exists(keys, keys.len() as int);
}

/// The first `n` positions of a list can be put in stable order.
proof fn lemma_order_exists(keys: Seq<Rank>, n: int) -> (order: Seq<int>)
    requires
        0 <= n <= keys.len(),
    ensures
        orders(keys, order, 0, n),
    decreases n,
{
    if n == 0 {
        Seq::empty()
    } else {
        let rest = lemma_order_exists(keys, n - 1);
        let m = n - 1;
        let at = lemma_place(keys, rest, m, rest.len() as int);
        let order = rest.insert(at, m);
        assert forall|a: int, b: int| 0 <= a < b < order.len() implies goes_before(
            keys,
            #[trigger] order[a],
            #[trigger] order[b],
        ) by {
        }
        assert forall|i: int| 0 <= i < n implies #[trigger] order.contains(i) by {
            if i == m {
                assert(order[at] == m);
            } else {
                assert(rest.contains(i));
                let k = choose|k: int| 0 <= k < rest.len() && rest[k] == i;
                if k < at {
                    assert(order[k] == i);
                } else {
                    assert(order[k + 1] == i);
                }
            }
        }
        order
    }
}

/// Where position `m` belongs among the first `n` entries of an ordered list.
proof fn lemma_place(keys: Seq<Rank>, rest: Seq<int>, m: int, n: int) -> (at: int)
    requires
        orders(keys, rest, 0, m),
        0 <= n <= rest.len(),
        forall|b: int| n <= b < rest.len() ==> goes_before(keys, m, #[trigger] rest[b]),
    ensures
        0 <= at <= rest.len(),
        forall|a: int| 0 <= a < at ==> goes_before(keys, #[trigger] rest[a], m),
        forall|b: int| at <= b < rest.len() ==> goes_before(keys, m, #[trigger] rest[b]),
    decreases n,
{
    if n == 0 {
        0
    } else {
        let x = rest[n - 1];
        lemma_goes_before(keys, m, x, m);
        if goes_before(keys, m, x) {
            lemma_place(keys, rest, m, n - 1)
        } else {
            assert forall|a: int| 0 <= a < n implies goes_before(keys, #[trigger] rest[a], m) by {
                if a < n - 1 {
                    lemma_goes_before(keys, rest[a], x, m);
                }
            }
            n
        }
    }
}

/// Two positions of the stable order hold different entries.
proof fn lemma_orders_distinct(keys: Seq<Rank>, order: Seq<int>, lo: int, hi: int, a: int, b: int)
    requires
        orders(keys, order, lo, hi),
        0 <= a < order.len(),
        0 <= b < order.len(),
        a != b,
    ensures
        order[a] != order[b],
{
    lemma_goes_before(keys, order[a], order[a], order[a]);
    if a < b {
        assert(goes_before(keys, order[a], order[b]));
    } else {
        assert(goes_before(keys, order[b], order[a]));
    }
}

/// Sorts a list by keys; entries with the same key keep their order.
pub fn sort_by_keys<T>(items: Vec<T>, keys: &Vec<Key>) -> (r: Vec<T>)
    requires
        items@.len() == keys@.len(),
    ensures
        r@ == arranged(items@, ranks(keys@)),
{
    let order: Vec<usize> = order_of(keys);
    let ghost whole = items@;
    let ghost ks = ranks(keys@);
    let ghost po = positions(order@);
    let mut slots: Vec<Option<T>> = Vec::new();
    let mut rest: Vec<T> = items;
    let mut back: Vec<T> = Vec::new();
    while rest.len() > 0
        invariant
            rest@ + back@.reverse() == whole,
        decreases rest.len(),
    {
        let ghost r0 = rest@;
        let ghost b0 = back@;
        let x: T = rest.pop().unwrap();
        back.push(x);
        assert(rest@ + back@.reverse() =~= r0 + b0.reverse());
    }
    assert(back@.reverse() =~= whole);
    while back.len() > 0
        invariant
            slots@.len() + back@.len() == whole.len(),
            forall|k: int| 0 <= k < slots@.len() ==> #[trigger] slots@[k] == Some(whole[k]),
            forall|k: int| 0 <= k < back@.len() ==> #[trigger] back@[k] == whole[whole.len() - 1 - k],
        decreases back.len(),
    {
        let x: T = back.pop().unwrap();
        slots.push(Some(x));
    }
    let mut out: Vec<T> = Vec::new();
    let mut n: usize = 0;
    while n < order.len()
        invariant
            n <= order.len(),
            ks == ranks(keys@),
            po == positions(order@),
            orders(ks, po, 0, ks.len() as int),
            po == stable_order(ks),
            whole.len() == ks.len(),
            slots@.len() == whole.len(),
            forall|k: int| n <= k < order@.len() ==> slots@[#[trigger] po[k]] == Some(whole[po[k]]),
            out@.len() == n,
            forall|k: int| 0 <= k < n ==> #[trigger] out@[k] == whole[po[k]],
        decreases order.len() - n,
    {
        assert(po[n as int] == order@[n as int]);
        let at: usize = order[n];
        assert(0 <= po[n as int] < whole.len());
        assert forall|k: int| n < k < order@.len() implies #[trigger] po[k] != at by {
            lemma_orders_distinct(ks, po, 0, ks.len() as int, n as int, k);
        }
        let slot: Option<T> = slots[at].take();
        out.push(slot.unwrap());
        n = n + 1;
    }
    assert(out@ =~= arranged(whole, ks));
    out
}

/// Turns a list around.
pub fn reverse<T>(v: &mut Vec<T>)
    ensures
        final(v)@ == old(v)@.reverse(),
{
    let mut out: Vec<T> = Vec::new();
    while v.len() > 0
        invariant
            v@.len() + out@.len() == old(v)@.len(),
            forall|k: int| 0 <= k < v@.len() ==> #[trigger] v@[k] == old(v)@[k],
            forall|k: int| 0 <= k < out@.len() ==> #[trigger] out@[k] == old(v)@[old(v)@.len() - 1 - k],
        decreases v.len(),
    {
        let x: T = v.pop().unwrap();
        out.push(x);
    }
    assert(out@ =~= old(v)@.reverse());
    *v = out;
}

/// Those entries of a list whose flag is set.
pub open spec fn kept<T>(items: Seq<T>, flags: Seq<bool>) -> Seq<T>
    decreases items.len(),
{
    if items.len() == 0 {
        Seq::empty()
    } else {
        let before = kept(items.drop_last(), flags);
        if flags[items.len() - 1] {
            before.push(items.last())
        } else {
            before
        }
    }
}

/// Those entries of a list whose flag is set.
pub fn keep<T>(items: Vec<T>, flags: &Vec<bool>) -> (r: Vec<T>)
    requires
        items@.len() == flags@.len(),
    ensures
        r@ == kept(items@, flags@),
{
    let ghost whole = items@;
    let n: usize = items.len();
    let mut waiting: Vec<T> = items;
    reverse(&mut waiting);
    let mut out: Vec<T> = Vec::new();
    let mut i: usize = 0;
    assert(out@ =~= kept(whole.take(0), flags@));
    while i < n
        invariant
            i <= n,
            n == whole.len(),
            flags@.len() == n,
            waiting@.len() == n - i,
            forall|k: int| 0 <= k < waiting@.len() ==> #[trigger] waiting@[k] == whole[n - 1 - k],
            out@ == kept(whole.take(i as int), flags@),
        decreases n - i,
    {
        let x: T = waiting.pop().unwrap();
        let ghost t = whole.take(i as int + 1);
        assert(t.drop_last() =~= whole.take(i as int));
        assert(t.last() == x);
        if flags[i] {
            out.push(x);
        }
        i = i + 1;
    }
    assert(whole.take(n as int) =~= whole);
    out
}

/// What holds of every entry whose flag is set holds of every entry that is kept.
pub proof fn lemma_kept<T>(items: Seq<T>, flags: Seq<bool>, p: spec_fn(T) -> bool)
    requires
        forall|j: int| 0 <= j < items.len() && flags[j] ==> p(#[trigger] items[j]),
    ensures
        kept(items, flags).len() <= items.len(),
        forall|i: int| 0 <= i < kept(items, flags).len() ==> p(#[trigger] kept(items, flags)[i]),
    decreases items.len(),
{
    if items.len() > 0 {
        let init = items.drop_last();
        assert forall|j: int| 0 <= j < init.len() && flags[j] implies p(#[trigger] init[j]) by {
            assert(init[j] == items[j]);
        }
        lemma_kept(init, flags, p);
        let before = kept(init, flags);
        let now = kept(items, flags);
        assert forall|i: int| 0 <= i < now.len() implies p(#[trigger] now[i]) by {
            if i < before.len() {
                assert(now[i] == before[i]);
            } else {
                assert(items[items.len() - 1] == now[i]);
            }
        }
    }
}

/// The first entries of a list, `limit` of them or all.
pub open spec fn first_n<T>(items: Seq<T>, limit: nat) -> Seq<T> {
    if items.len() <= limit {
        items
    } else {
        items.take(limit as int)
    }
}

/// The first entries of a list, `limit` of them or all.
pub fn take_first<T>(items: Vec<T>, limit: usize) -> (r: Vec<T>)
    ensures
        r@ == first_n(items@, limit as nat),
{
    let mut r: Vec<T> = items;
    if r.len() > limit {
        r.truncate(limit);
    }
    r
}

/// Sorting keeps every entry and adds none, and no entry stands before one whose key is
/// strictly smaller.
pub proof fn law_sorting_keeps_every_entry<T>(items: Seq<T>, keys: Seq<Rank>)
    requires
        items.len() == keys.len(),
    ensures
        arranged(items, keys).len() == items.len(),
        forall|x: T| #[trigger] arranged(items, keys).contains(x) <==> items.contains(x),
        forall|i: int, j: int|
            0 <= i < j < items.len() ==> !rank_before(
                keys[#[trigger] stable_order(keys)[j]],
                keys[#[trigger] stable_order(keys)[i]],
            ),
{
    lemma_stable_order(keys);
    let o = stable_order(keys);
    let list = arranged(items, keys);
    assert forall|x: T| #[trigger] list.contains(x) <==> items.contains(x) by {
        if list.contains(x) {
            let i = choose|i: int| 0 <= i < list.len() && list[i] == x;
            assert(0 <= o[i] < items.len());
            assert(items[o[i]] == x);
        }
        if items.contains(x) {
            let j = choose|j: int| 0 <= j < items.len() && items[j] == x;
            assert(o.contains(j));
            let i = choose|i: int| 0 <= i < o.len() && o[i] == j;
            assert(list[i] == x);
        }
    }
    assert forall|i: int, j: int| 0 <= i < j < items.len() implies !rank_before(
        keys[#[trigger] o[j]],
        keys[#[trigger] o[i]],
    ) by {
        assert(goes_before(keys, o[i], o[j]));
        lemma_rank_total(keys[o[i]], keys[o[j]]);
    }
}

/// Sorting a list and then changing each entry is the same as changing each entry first.
pub proof fn lemma_arranged_map<A, B>(items: Seq<A>, keys: Seq<Rank>, f: spec_fn(A) -> B)
    requires
        items.len() == keys.len(),
    ensures
        arranged(items.map_values(f), keys) == arranged(items, keys).map_values(f),
{
    lemma_stable_order(keys);
    let o = stable_order(keys);
    let a = arranged(items.map_values(f), keys);
    let b = arranged(items, keys).map_values(f);
    assert forall|i: int| 0 <= i < a.len() implies #[trigger] a[i] == b[i] by {
        assert(0 <= o[i] < items.len());
    }
    assert(a =~= b);
}

/// The entries of a list from place `offset` on, `limit` of them or as many as there are.
pub open spec fn window<T>(items: Seq<T>, offset: nat, limit: nat) -> Seq<T> {
    if offset >= items.len() {
        Seq::empty()
    } else {
        first_n(items.skip(offset as int), limit)
    }
}

/// The entries of a list from place `offset` on, `limit` of them or as many as there are.
pub fn take_window<T>(items: Vec<T>, offset: usize, limit: usize) -> (r: Vec<T>)
    ensures
        r@ == window(items@, offset as nat, limit as nat),
{
    if offset >= items.len() {
        let r: Vec<T> = Vec::new();
        assert(r@ =~= Seq::empty());
        return r;
    }
    let ghost all = items@;
    let mut front: Vec<T> = items;
    let rest: Vec<T> = front.split_off(offset);
    assert(rest@ =~= all.skip(offset as int));
    take_first(rest, limit)
}

/// In a list in the stable order of its keys no entry has a key that stands before the key of an
/// earlier entry.
pub proof fn lemma_arranged_by<T>(items: Seq<T>, keys: Seq<Rank>, key: spec_fn(T) -> Rank)
    requires
        items.len() == keys.len(),
        forall|i: int| 0 <= i < items.len() ==> keys[i] == key(#[trigger] items[i]),
    ensures
        arranged(items, keys).len() == items.len(),
        forall|i: int, j: int|
            0 <= i < j < items.len() ==> !rank_before(
                key(#[trigger] arranged(items, keys)[j]),
                key(#[trigger] arranged(items, keys)[i]),
            ),
{
    lemma_stable_order(keys);
    let o = stable_order(keys);
    let list = arranged(items, keys);
    assert forall|i: int, j: int| 0 <= i < j < items.len() implies !rank_before(
        key(#[trigger] list[j]),
        key(#[trigger] list[i]),
    ) by {
        assert(goes_before(keys, o[i], o[j]));
        lemma_rank_total(keys[o[i]], keys[o[j]]);
        assert(0 <= o[i] < items.len() && 0 <= o[j] < items.len());
        assert(keys[o[i]] == key(items[o[i]]) && keys[o[j]] == key(items[o[j]]));
    }
}

/// A list that is in order stays as it is when it is sorted.
pub proof fn lemma_sorted_stays<T>(items: Seq<T>, keys: Seq<Rank>)
    requires
        items.len() == keys.len(),
        forall|i: int, j: int|
            0 <= i < j < keys.len() ==> !rank_before(#[trigger] keys[j], #[trigger] keys[i]),
    ensures
        arranged(items, keys) == items,
{
    let n = keys.len() as int;
    let same = Seq::new(keys.len(), |i: int| i);
    assert forall|i: int| 0 <= i < n implies #[trigger] same.contains(i) by {
        assert(same[i] == i);
    }
    assert(orders(keys, same, 0, n));
    lemma_stable_order(keys);
    law_the_stable_order_is_unique(keys, same, stable_order(keys), 0, n);
    assert(arranged(items, keys) =~= items);
}

/// Where all entries of a list are kept, it stays as it is.
pub proof fn lemma_all_kept<T>(items: Seq<T>, flags: Seq<bool>)
    requires
        forall|i: int| 0 <= i < items.len() ==> #[trigger] flags[i],
    ensures
        kept(items, flags) == items,
    decreases items.len(),
{
    if items.len() > 0 {
        lemma_all_kept(items.drop_last(), flags);
        assert(flags[items.len() - 1]);
        assert(kept(items, flags) =~= items);
    }
}

/// Exactly the entries whose flag is set are kept, in their order.
pub proof fn law_kept_entries_are_the_flagged_ones<T>(items: Seq<T>, flags: Seq<bool>)
    ensures
        picked(items.len(), kept(items, flags), |i: int| flags[i], |i: int| items[i]),
    decreases items.len(),
{
    if items.len() == 0 {
        lemma_picked_none(|i: int| flags[i], |i: int| items[i]);
    } else {
        let init = items.drop_last();
        law_kept_entries_are_the_flagged_ones(init, flags);
        lemma_picked_one_more(
            init.len(),
            kept(init, flags),
            |i: int| flags[i],
            |i: int| init[i],
            kept(items, flags),
            |i: int| flags[i],
            |i: int| items[i],
        );
    }
}

/// Every entry whose flag is set is kept, and every entry that is kept has its flag set.
pub proof fn lemma_kept_members<T>(items: Seq<T>, flags: Seq<bool>)
    ensures
        forall|i: int|
            0 <= i < items.len() && flags[i] ==> kept(items, flags).contains(#[trigger] items[i]),
        forall|a: int|
            0 <= a < kept(items, flags).len() ==> flagged(
                items,
                flags,
                #[trigger] kept(items, flags)[a],
            ),
{
    let chosen = |i: int| flags[i];
    let gives = |i: int| items[i];
    law_kept_entries_are_the_flagged_ones(items, flags);
    lemma_picked(items.len(), kept(items, flags), chosen, gives);
    assert forall|i: int| 0 <= i < items.len() && flags[i] implies kept(items, flags).contains(
        #[trigger] items[i],
    ) by {
        assert(chosen(i));
    }
    assert forall|a: int| 0 <= a < kept(items, flags).len() implies flagged(
        items,
        flags,
        #[trigger] kept(items, flags)[a],
    ) by {
        assert(given_by(items.len(), kept(items, flags)[a], chosen, gives));
        let i = choose|i: int|
            0 <= i < items.len() && #[trigger] chosen(i) && kept(items, flags)[a] == gives(i);
        assert(items[i] == kept(items, flags)[a]);
    }
}

/// An entry stands in a list with its flag set.
pub open spec fn flagged<T>(items: Seq<T>, flags: Seq<bool>, x: T) -> bool {
    exists|i: int| 0 <= i < items.len() && flags[i] && #[trigger] items[i] == x
}

/// The first entries of a list are as many as asked, or all, and stand where they stood.
pub proof fn law_the_first_entries<T>(items: Seq<T>, limit: nat)
    ensures
        first_n(items, limit).len() == if items.len() < limit {
            items.len()
        } else {
            limit
        },
        forall|i: int|
            0 <= i < first_n(items, limit).len() ==> #[trigger] first_n(items, limit)[i] == items[i],
{
}

/// A window begins at its offset, and has as many entries as asked or as there are from there on.
pub proof fn law_a_window_of_a_list<T>(items: Seq<T>, offset: nat, limit: nat)
    ensures
        window(items, offset, limit).len() == if items.len() <= offset {
            0
        } else if items.len() - offset < limit {
            (items.len() - offset) as nat
        } else {
            limit
        },
        forall|i: int|
            0 <= i < window(items, offset, limit).len() ==> #[trigger] window(
                items,
                offset,
                limit,
            )[i] == items[offset + i],
{
}

/// Two sequences agree up to a place, where the first ends or has the smaller number.
pub open spec fn differs_first_at(s: Seq<int>, t: Seq<int>, k: int) -> bool {
    &&& 0 <= k <= s.len()
    &&& k < t.len()
    &&& forall|j: int| 0 <= j < k ==> #[trigger] s[j] == t[j]
    &&& k == s.len() || s[k] < t[k]
}

/// One sequence stands before another exactly where, at the first place at which they differ, it
/// ends or has the smaller number.
pub proof fn law_the_first_difference_decides(s: Seq<int>, t: Seq<int>)
    ensures
        seq_before(s, t) <==> exists|k: int| differs_first_at(s, t, k),
    decreases s.len(),
{
    if t.len() > 0 && s.len() > 0 && s[0] == t[0] {
        let s1 = s.drop_first();
        let t1 = t.drop_first();
        law_the_first_difference_decides(s1, t1);
        if seq_before(s, t) {
            let k = choose|k: int| differs_first_at(s1, t1, k);
            assert forall|j: int| 0 <= j < k + 1 implies #[trigger] s[j] == t[j] by {
                if j > 0 {
                    assert(s1[j - 1] == t1[j - 1]);
                }
            }
            assert(differs_first_at(s, t, k + 1));
        }
        if exists|k: int| differs_first_at(s, t, k) {
            let k = choose|k: int| differs_first_at(s, t, k);
            assert forall|j: int| 0 <= j < k - 1 implies #[trigger] s1[j] == t1[j] by {
                assert(s[j + 1] == t[j + 1]);
            }
            assert(differs_first_at(s1, t1, k - 1));
        }
    } else {
        if seq_before(s, t) {
            assert(differs_first_at(s, t, 0));
        }
    }
}

/// `order` has each place below `n` once.
pub open spec fn each_place_once(order: Seq<int>, n: nat) -> bool {
    &&& order.len() == n
    &&& order.no_duplicates()
    &&& forall|a: int| 0 <= a < n ==> 0 <= #[trigger] order[a] < n
    &&& forall|i: int| 0 <= i < n ==> #[trigger] order.contains(i)
}

/// Sorting gives each entry a place of its own. Of two entries, the one with the smaller first
/// number comes first, at equal ones the one with the smaller second number, then the one with
/// the smaller sequence; entries with the same key keep their order.
pub proof fn law_sorting_is_by_key_and_place<T>(items: Seq<T>, keys: Seq<Rank>)
    requires
        items.len() == keys.len(),
    ensures
        each_place_once(stable_order(keys), items.len()),
        arranged(items, keys).len() == items.len(),
        forall|a: int|
            0 <= a < items.len() ==> #[trigger] arranged(items, keys)[a]
                == items[stable_order(keys)[a]],
        forall|a: int, b: int|
            0 <= a < b < items.len() ==> ({
                let i = #[trigger] stable_order(keys)[a];
                let j = #[trigger] stable_order(keys)[b];
                &&& keys[i].major <= keys[j].major
                &&& keys[i].major == keys[j].major ==> keys[i].minor <= keys[j].minor
                &&& keys[i].major == keys[j].major && keys[i].minor == keys[j].minor
                    ==> !seq_before(keys[j].text, keys[i].text)
                &&& keys[i] == keys[j] ==> i < j
            }),
{
    lemma_stable_order(keys);
    let o = stable_order(keys);
    assert forall|a: int, b: int| 0 <= a < o.len() && 0 <= b < o.len() && a != b implies o[a]
        != o[b] by {
        lemma_orders_distinct(keys, o, 0, keys.len() as int, a, b);
    }
    assert forall|a: int, b: int| 0 <= a < b < items.len() implies ({
        let i = #[trigger] o[a];
        let j = #[trigger] o[b];
        &&& keys[i].major <= keys[j].major
        &&& keys[i].major == keys[j].major ==> keys[i].minor <= keys[j].minor
        &&& keys[i].major == keys[j].major && keys[i].minor == keys[j].minor ==> !seq_before(
            keys[j].text,
            keys[i].text,
        )
        &&& keys[i] == keys[j] ==> i < j
    }) by {
        assert(goes_before(keys, o[a], o[b]));
        lemma_rank_total(keys[o[a]], keys[o[b]]);
        lemma_seq_before_total(keys[o[a]].text, keys[o[b]].text);
    }
}

/// One text stands before another exactly where, at the first place at which they differ, it ends
/// or has the character with the smaller code point.
pub proof fn law_texts_are_compared_by_code_points(s: Seq<char>, t: Seq<char>)
    ensures
        text_before(s, t) <==> exists|k: int|
            0 <= k <= s.len() && k < t.len() && #[trigger] s.take(k) == t.take(k) && (k == s.len()
                || s[k] < t[k]),
{
    let a = codes(s);
    let b = codes(t);
    law_the_first_difference_decides(a, b);
    if text_before(s, t) {
        let k = choose|k: int| differs_first_at(a, b, k);
        assert forall|j: int| 0 <= j < k implies s[j] == t[j] by {
            assert(a[j] == b[j]);
            lemma_code(s[j]);
            lemma_code(t[j]);
        }
        lemma_code(t[k]);
        if k < s.len() {
            lemma_code(s[k]);
        }
        assert(s.take(k) =~= t.take(k));
    }
    if exists|k: int|
        0 <= k <= s.len() && k < t.len() && #[trigger] s.take(k) == t.take(k) && (k == s.len()
            || s[k] < t[k]) {
        let k = choose|k: int|
            0 <= k <= s.len() && k < t.len() && #[trigger] s.take(k) == t.take(k) && (k == s.len()
                || s[k] < t[k]);
        assert forall|j: int| 0 <= j < k implies #[trigger] a[j] == b[j] by {
            assert(s.take(k)[j] == t.take(k)[j]);
        }
        lemma_code(t[k]);
        if k < s.len() {
            lemma_code(s[k]);
        }
        assert(differs_first_at(a, b, k));
    }
}

/// The code point of a character is the character as a number.
proof fn lemma_code(c: char)
    ensures
        c as u32 as int == c as int,
{
}

/// `places` lists the places below `n` whose entries are chosen, each once, none before one that
/// goes before it, and those of which neither goes before the other in their order; `out` has
/// what each of them gives.
pub open spec fn sorts<B>(
    n: nat,
    out: Seq<B>,
    chosen: spec_fn(int) -> bool,
    gives: spec_fn(int) -> B,
    first: spec_fn(int, int) -> bool,
    places: Seq<int>,
) -> bool {
    &&& places.len() == out.len()
    &&& places.no_duplicates()
    &&& forall|a: int|
        0 <= a < places.len() ==> 0 <= #[trigger] places[a] < n && chosen(places[a]) && out[a]
            == gives(places[a])
    &&& forall|i: int| 0 <= i < n && chosen(i) ==> #[trigger] places.contains(i)
    &&& forall|a: int, b: int|
        0 <= a < b < places.len() ==> !first(#[trigger] places[b], #[trigger] places[a]) && (first(
            places[a],
            places[b],
        ) || places[a] < places[b])
}

/// `out` has, once each and in their order, what the chosen ones of `n` places give, and nothing
/// else.
pub open spec fn sorted<B>(
    n: nat,
    out: Seq<B>,
    chosen: spec_fn(int) -> bool,
    gives: spec_fn(int) -> B,
    first: spec_fn(int, int) -> bool,
) -> bool {
    exists|places: Seq<int>| #[trigger] sorts(n, out, chosen, gives, first, places)
}

/// Entries that are kept, sorted by a key, and then changed one by one.
pub proof fn lemma_kept_and_sorted<A, B>(
    items: Seq<A>,
    flags: Seq<bool>,
    keys: Seq<Rank>,
    key: spec_fn(A) -> Rank,
    f: spec_fn(A) -> B,
    out: Seq<B>,
    chosen: spec_fn(int) -> bool,
    gives: spec_fn(int) -> B,
    first: spec_fn(int, int) -> bool,
)
    requires
        keys.len() == kept(items, flags).len(),
        forall|a: int| 0 <= a < keys.len() ==> #[trigger] keys[a] == key(kept(items, flags)[a]),
        out == arranged(kept(items, flags), keys).map_values(f),
        forall|i: int| 0 <= i < items.len() ==> #[trigger] chosen(i) == flags[i],
        forall|i: int| 0 <= i < items.len() ==> #[trigger] gives(i) == f(items[i]),
        forall|i: int, j: int|
            0 <= i < items.len() && 0 <= j < items.len() ==> #[trigger] first(i, j) == rank_before(
                key(items[i]),
                key(items[j]),
            ),
    ensures
        sorted(items.len(), out, chosen, gives, first),
{
    let found = kept(items, flags);
    let n = items.len();
    law_kept_entries_are_the_flagged_ones(items, flags);
    let c0 = |i: int| flags[i];
    let g0 = |i: int| items[i];
    let p = choose|p: Seq<int>| #[trigger] picks(n, found, c0, g0, p);
    lemma_stable_order(keys);
    let o = stable_order(keys);
    let places = Seq::new(found.len(), |a: int| p[o[a]]);
    assert forall|a: int| 0 <= a < places.len() implies 0 <= #[trigger] places[a] < n && chosen(
        places[a],
    ) && out[a] == gives(places[a]) by {
        assert(0 <= o[a] < found.len());
        assert(c0(p[o[a]]));
        assert(chosen(places[a]) == flags[places[a]]);
        assert(gives(places[a]) == f(items[places[a]]));
    }
    assert forall|i: int| 0 <= i < n && chosen(i) implies #[trigger] places.contains(i) by {
        assert(c0(i));
        assert(p.contains(i));
        let b = choose|b: int| 0 <= b < p.len() && p[b] == i;
        assert(o.contains(b));
        let a = choose|a: int| 0 <= a < o.len() && o[a] == b;
        assert(places[a] == i);
    }
    assert forall|a: int, b: int| 0 <= a < b < places.len() implies !first(
        #[trigger] places[b],
        #[trigger] places[a],
    ) && (first(places[a], places[b]) || places[a] < places[b]) by {
        assert(goes_before(keys, o[a], o[b]));
        assert(0 <= o[a] < found.len() && 0 <= o[b] < found.len());
        assert(keys[o[a]] == key(found[o[a]]) && keys[o[b]] == key(found[o[b]]));
        assert(found[o[a]] == items[places[a]] && found[o[b]] == items[places[b]]);
        lemma_rank_total(keys[o[a]], keys[o[b]]);
        assert(first(places[b], places[a]) == rank_before(keys[o[b]], keys[o[a]]));
        assert(first(places[a], places[b]) == rank_before(keys[o[a]], keys[o[b]]));
    }
    assert forall|a: int, b: int|
        0 <= a < places.len() && 0 <= b < places.len() && a != b implies places[a] != places[b] by {
        lemma_orders_distinct(keys, o, 0, keys.len() as int, a, b);
        assert(0 <= o[a] < p.len() && 0 <= o[b] < p.len());
        if o[a] < o[b] {
            assert(p[o[a]] < p[o[b]]);
        } else {
            assert(p[o[b]] < p[o[a]]);
        }
    }
    assert(sorts(n, out, chosen, gives, first, places));
}

/// Entries that are kept and then changed one by one.
pub proof fn lemma_kept_and_changed<A, B>(
    items: Seq<A>,
    flags: Seq<bool>,
    f: spec_fn(A) -> B,
    chosen: spec_fn(int) -> bool,
    gives: spec_fn(int) -> B,
)
    requires
        forall|i: int| 0 <= i < items.len() ==> #[trigger] chosen(i) == flags[i],
        forall|i: int| 0 <= i < items.len() ==> #[trigger] gives(i) == f(items[i]),
    ensures
        picked(items.len(), kept(items, flags).map_values(f), chosen, gives),
{
    let found = kept(items, flags);
    law_kept_entries_are_the_flagged_ones(items, flags);
    let c0 = |i: int| flags[i];
    let g0 = |i: int| items[i];
    let p = choose|p: Seq<int>| #[trigger] picks(items.len(), found, c0, g0, p);
    let out = found.map_values(f);
    assert forall|a: int| 0 <= a < p.len() implies 0 <= #[trigger] p[a] < items.len() && chosen(p[a])
        && out[a] == gives(p[a]) by {
        assert(c0(p[a]));
        assert(chosen(p[a]) == flags[p[a]]);
        assert(gives(p[a]) == f(items[p[a]]));
    }
    assert forall|i: int| 0 <= i < items.len() && chosen(i) implies #[trigger] p.contains(i) by {
        assert(c0(i));
    }
    assert(picks(items.len(), out, chosen, gives, p));
}

/// `out` is as much of a list as asked, from a place on.
pub open spec fn is_part<B>(out: Seq<B>, whole: Seq<B>, offset: nat, limit: nat) -> bool {
    &&& out.len() == if whole.len() <= offset {
        0
    } else if whole.len() - offset < limit {
        (whole.len() - offset) as nat
    } else {
        limit
    }
    &&& forall|i: int| 0 <= i < out.len() ==> #[trigger] out[i] == whole[offset + i]
}

/// An entry that is kept stands behind those that are kept before it.
pub proof fn lemma_kept_at<T>(items: Seq<T>, flags: Seq<bool>, i: int)
    requires
        0 <= i < items.len(),
        flags[i],
    ensures
        kept(items.take(i), flags).len() < kept(items, flags).len(),
        kept(items, flags)[kept(items.take(i), flags).len() as int] == items[i],
    decreases items.len(),
{
    let init = items.drop_last();
    if i == items.len() - 1 {
        assert(items.take(i) =~= init);
    } else {
        lemma_kept_at(init, flags, i);
        assert(init.take(i) =~= items.take(i));
    }
}

/// As many entries are kept as have what their flags say.
pub proof fn lemma_kept_len<T>(items: Seq<T>, flags: Seq<bool>, p: spec_fn(T) -> bool)
    requires
        forall|i: int| 0 <= i < items.len() ==> flags[i] == p(#[trigger] items[i]),
    ensures
        kept(items, flags).len() == items.filter(p).len(),
    decreases items.len(),
{
    reveal(Seq::filter);
    if items.len() > 0 {
        let init = items.drop_last();
        assert forall|i: int| 0 <= i < init.len() implies flags[i] == p(#[trigger] init[i]) by {
            assert(init[i] == items[i]);
        }
        lemma_kept_len(init, flags, p);
        assert(flags[items.len() - 1] == p(items[items.len() - 1]));
    }
}

/// Entries of a list that are sorted by a key, none of them left out.
pub proof fn lemma_all_sorted<A>(
    items: Seq<A>,
    keys: Seq<Rank>,
    key: spec_fn(A) -> Rank,
    first: spec_fn(int, int) -> bool,
)
    requires
        keys.len() == items.len(),
        forall|a: int| 0 <= a < keys.len() ==> #[trigger] keys[a] == key(items[a]),
        forall|i: int, j: int|
            0 <= i < items.len() && 0 <= j < items.len() ==> #[trigger] first(i, j) == rank_before(
                key(items[i]),
                key(items[j]),
            ),
    ensures
        sorted(items.len(), arranged(items, keys), |i: int| true, |i: int| items[i], first),
{
    let flags = Seq::new(items.len(), |i: int| true);
    lemma_all_kept(items, flags);
    let same = |x: A| x;
    assert(arranged(items, keys).map_values(same) =~= arranged(items, keys));
    lemma_kept_and_sorted(
        items,
        flags,
        keys,
        key,
        same,
        arranged(items, keys),
        |i: int| true,
        |i: int| items[i],
        first,
    );
}

} // verus!
