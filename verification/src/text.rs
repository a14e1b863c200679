//! Verified operations on text.
//!
//! A string is modelled by its sequence of characters. The operations here take and give
//! ordinary string slices, and their contracts speak of those sequences alone.

use vstd::prelude::*;
use vstd::string::*;

verus! {

/// `String::push` appends one character at the end.
pub assume_specification[ String::push ](s: &mut String, c: char)
    ensures
        final(s)@ == old(s)@.push(c),
;

/// The characters of a list of strings.
pub open spec fn texts(v: Seq<String>) -> Seq<Seq<char>> {
    v.map_values(|s: String| s@)
}

/// The characters of a string that may be missing.
pub open spec fn opt(s: Option<String>) -> Option<Seq<char>> {
    match s {
        Some(s) => Some(s@),
        None => None,
    }
}

/// The bytes of a value that may be missing.
pub open spec fn opt_bytes(v: Option<Vec<u8>>) -> Option<Seq<u8>> {
    match v {
        Some(v) => Some(v@),
        None => None,
    }
}

/// A copy of a string that may be missing.
pub fn copied(s: &Option<String>) -> (r: Option<String>)
    ensures
        opt(r) == opt(*s),
{
    match s {
        Some(s) => Some(s.clone()),
        None => None,
    }
}

/// The characters of pairs of strings.
pub open spec fn pairs(list: Seq<(String, String)>) -> Seq<(Seq<char>, Seq<char>)> {
    Seq::new(list.len(), |i: int| (list[i].0@, list[i].1@))
}

/// `p` stands in `s` from position `i` on.
pub open spec fn occurs_at(s: Seq<char>, p: Seq<char>, i: int) -> bool {
    0 <= i && i + p.len() <= s.len() && s.subrange(i, i + p.len()) == p
}

/// `s` begins with `p`.
pub open spec fn has_prefix(s: Seq<char>, p: Seq<char>) -> bool {
    occurs_at(s, p, 0)
}

/// `s` ends with `p`.
pub open spec fn has_suffix(s: Seq<char>, p: Seq<char>) -> bool {
    occurs_at(s, p, s.len() - p.len())
}

/// `p` stands somewhere in `s`.
pub open spec fn contains_text(s: Seq<char>, p: Seq<char>) -> bool {
    exists|i: int| occurs_at(s, p, i)
}

/// The position of the first character of `s` that is one of `set`, or the length of `s`.
pub open spec fn first_of(s: Seq<char>, set: Seq<char>) -> int
    decreases s.len(),
{
    if s.len() == 0 {
        0
    } else if set.contains(s[0]) {
        0
    } else {
        1 + first_of(s.drop_first(), set)
    }
}

/// The position of the last character of `s` that is `c`, or -1.
pub open spec fn last_at(s: Seq<char>, c: char) -> int
    decreases s.len(),
{
    if s.len() == 0 {
        -1
    } else if s.last() == c {
        s.len() - 1
    } else {
        last_at(s.drop_last(), c)
    }
}

/// What `first_of` gives is the least position at which a character of `set` stands.
pub proof fn lemma_first_of(s: Seq<char>, set: Seq<char>)
    ensures
        0 <= first_of(s, set) <= s.len(),
        first_of(s, set) < s.len() ==> set.contains(s[first_of(s, set)]),
        forall|i: int| 0 <= i < first_of(s, set) ==> !set.contains(#[trigger] s[i]),
    decreases s.len(),
{
    if s.len() > 0 && !set.contains(s[0]) {
        let t = s.drop_first();
        lemma_first_of(t, set);
        assert forall|i: int| 0 <= i < first_of(s, set) implies !set.contains(#[trigger] s[i]) by {
            if i > 0 {
                assert(t[i - 1] == s[i]);
            }
        }
    }
}

/// A position that has the defining property of `first_of` is it.
pub proof fn lemma_first_of_unique(s: Seq<char>, set: Seq<char>, k: int)
    requires
        0 <= k <= s.len(),
        k < s.len() ==> set.contains(s[k]),
        forall|i: int| 0 <= i < k ==> !set.contains(#[trigger] s[i]),
    ensures
        first_of(s, set) == k,
{
    lemma_first_of(s, set);
    let f = first_of(s, set);
    if f < k {
        assert(!set.contains(s[f]));
    }
}

/// What `last_at` gives is the greatest position at which `c` stands.
pub proof fn lemma_last_at(s: Seq<char>, c: char)
    ensures
        -1 <= last_at(s, c) < s.len(),
        last_at(s, c) >= 0 ==> s[last_at(s, c)] == c,
        forall|i: int| last_at(s, c) < i < s.len() ==> #[trigger] s[i] != c,
    decreases s.len(),
{
    if s.len() > 0 && s.last() != c {
        let t = s.drop_last();
        lemma_last_at(t, c);
        assert forall|i: int| last_at(s, c) < i < s.len() implies #[trigger] s[i] != c by {
            if i < s.len() - 1 {
                assert(t[i] == s[i]);
            }
        }
    }
}

/// The characters of a string, one by one.
pub fn chars_of(s: &str) -> (r: Vec<char>)
    ensures
        r@ == s@,
{
    let mut r: Vec<char> = Vec::new();
    for c in it: s.chars()
        invariant
            r@ == it.seq().take(it.index()),
            it.seq() == s@,
    {
        r.push(c);
        assert(it.seq().take(it.index() + 1) =~= it.seq().take(it.index()).push(c));
    }
    assert(s@.take(s@.len() as int) =~= s@);
    r
}

/// The part of `s` from character position `i` on.
pub fn tail_from<'a>(s: &'a str, i: usize) -> (r: &'a str)
    requires
        i <= s@.len(),
    ensures
        r@ == s@.skip(i as int),
{
    let n: usize = s.unicode_len();
    s.substring_char(i, n)
}

/// The first `i` characters of `s`.
pub fn head_to<'a>(s: &'a str, i: usize) -> (r: &'a str)
    requires
        i <= s@.len(),
    ensures
        r@ == s@.take(i as int),
{
    s.substring_char(0, i)
}

/// The first `n` characters of `s`, or all of it where it is shorter.
pub open spec fn at_most(s: Seq<char>, n: nat) -> Seq<char> {
    if n <= s.len() {
        s.take(n as int)
    } else {
        s
    }
}

/// The first `n` characters of `s`, or all of it where it is shorter.
pub fn take_chars<'a>(s: &'a str, n: usize) -> (r: &'a str)
    ensures
        r@ == at_most(s@, n as nat),
{
    if n <= s.unicode_len() {
        head_to(s, n)
    } else {
        s
    }
}

/// Whether two strings hold the same characters.
pub fn same_text(a: &str, b: &str) -> (r: bool)
    ensures
        r == (a@ == b@),
{
    let x: String = a.to_owned();
    let y: String = b.to_owned();
    x == y
}

/// Whether `p` stands in `s` from position `i` on.
fn matches_at(s: &Vec<char>, p: &Vec<char>, i: usize) -> (r: bool)
    ensures
        r == occurs_at(s@, p@, i as int),
{
    if p.len() > s.len() || i > s.len() - p.len() {
        return false;
    }
    let mut j: usize = 0;
    while j < p.len()
        invariant
            j <= p.len(),
            i + p.len() <= s.len(),
            forall|k: int| 0 <= k < j ==> s@[i + k] == p@[k],
        decreases p.len() - j,
    {
        if s[i + j] != p[j] {
            assert(s@.subrange(i as int, i + p@.len())[j as int] != p@[j as int]);
            return false;
        }
        j = j + 1;
    }
    assert(s@.subrange(i as int, i + p@.len()) =~= p@);
    true
}

/// Whether `s` begins with `p`.
pub fn starts_with(s: &str, p: &str) -> (r: bool)
    ensures
        r == has_prefix(s@, p@),
{
    matches_at(&chars_of(s), &chars_of(p), 0)
}

/// Whether `s` ends with `p`.
pub fn ends_with(s: &str, p: &str) -> (r: bool)
    ensures
        r == has_suffix(s@, p@),
{
    let sv: Vec<char> = chars_of(s);
    let pv: Vec<char> = chars_of(p);
    if pv.len() > sv.len() {
        return false;
    }
    matches_at(&sv, &pv, sv.len() - pv.len())
}

/// The least position not before `from` at which `p` stands in `s`.
pub fn find_text_from(s: &Vec<char>, p: &Vec<char>, from: usize) -> (r: Option<usize>)
    requires
        from <= s.len(),
    ensures
        match r {
            Some(i) => {
                &&& from <= i
                &&& occurs_at(s@, p@, i as int)
                &&& forall|j: int| from <= j < i ==> !occurs_at(s@, p@, j)
            },
            None => forall|j: int| from <= j ==> !occurs_at(s@, p@, j),
        },
{
    let mut i: usize = from;
    while i < s.len()
        invariant
            from <= i <= s.len(),
            forall|j: int| from <= j < i ==> !occurs_at(s@, p@, j),
        decreases s.len() - i,
    {
        if matches_at(s, p, i) {
            return Some(i);
        }
        i = i + 1;
    }
    if matches_at(s, p, i) {
        return Some(i);
    }
    None
}

/// Whether `p` stands somewhere in `s`.
pub fn contains(s: &str, p: &str) -> (r: bool)
    ensures
        r == contains_text(s@, p@),
{
    match find_text_from(&chars_of(s), &chars_of(p), 0) {
        Some(i) => {
            assert(occurs_at(s@, p@, i as int));
            true
        },
        None => false,
    }
}

/// What is left of `s` behind the prefix `p`, where `s` begins with it.
pub fn strip_prefix<'a>(s: &'a str, p: &str) -> (r: Option<&'a str>)
    ensures
        r is Some <==> has_prefix(s@, p@),
        r matches Some(t) ==> t@ == s@.skip(p@.len() as int),
{
    if starts_with(s, p) {
        let n: usize = p.unicode_len();
        Some(tail_from(s, n))
    } else {
        None
    }
}

/// The position of the first character of `s` that is one of `set`, or its length.
pub fn find_first_of(s: &str, set: &str) -> (r: usize)
    ensures
        r == first_of(s@, set@),
        r <= s@.len(),
{
    let sv: Vec<char> = chars_of(s);
    let tv: Vec<char> = chars_of(set);
    let mut i: usize = 0;
    while i < sv.len()
        invariant
            i <= sv.len(),
            sv@ == s@,
            tv@ == set@,
            forall|k: int| 0 <= k < i ==> !set@.contains(#[trigger] s@[k]),
        decreases sv.len() - i,
    {
        if has_char(&tv, sv[i]) {
            proof {
                lemma_first_of_unique(s@, set@, i as int);
            }
            return i;
        }
        i = i + 1;
    }
    proof {
        lemma_first_of_unique(s@, set@, i as int);
    }
    i
}

/// Whether `c` is one of `set`.
fn has_char(set: &Vec<char>, c: char) -> (r: bool)
    ensures
        r == set@.contains(c),
{
    let mut i: usize = 0;
    while i < set.len()
        invariant
            i <= set.len(),
            forall|k: int| 0 <= k < i ==> set@[k] != c,
        decreases set.len() - i,
    {
        if set[i] == c {
            assert(set@[i as int] == c);
            return true;
        }
        i = i + 1;
    }
    false
}

/// What stands in `s` before the first character of `set`: all of it where there is none.
pub fn before_first<'a>(s: &'a str, set: &str) -> (r: &'a str)
    ensures
        r@ == s@.take(first_of(s@, set@)),
{
    let i: usize = find_first_of(s, set);
    head_to(s, i)
}

/// The position of the last `c` in `s`, where there is one.
pub fn find_last(s: &str, c: char) -> (r: Option<usize>)
    ensures
        match r {
            Some(i) => i == last_at(s@, c) && i < s@.len(),
            None => last_at(s@, c) == -1,
        },
{
    let sv: Vec<char> = chars_of(s);
    let mut i: usize = sv.len();
    proof {
        lemma_last_at(s@, c);
    }
    while i > 0
        invariant
            i <= sv.len(),
            sv@ == s@,
            last_at(s@, c) < i,
            -1 <= last_at(s@, c),
            last_at(s@, c) >= 0 ==> s@[last_at(s@, c)] == c,
            forall|k: int| last_at(s@, c) < k < s@.len() ==> #[trigger] s@[k] != c,
        decreases i,
    {
        if sv[i - 1] == c {
            return Some(i - 1);
        }
        i = i - 1;
    }
    None
}

/// The parts of `s` before and behind its last `c`, where it holds one.
pub fn rsplit_once<'a>(s: &'a str, c: char) -> (r: Option<(&'a str, &'a str)>)
    ensures
        match r {
            Some((a, b)) => {
                &&& last_at(s@, c) >= 0
                &&& a@ == s@.take(last_at(s@, c))
                &&& b@ == s@.skip(last_at(s@, c) + 1)
            },
            None => last_at(s@, c) == -1,
        },
{
    match find_last(s, c) {
        Some(i) => {
            let n: usize = s.unicode_len();
            Some((head_to(s, i), s.substring_char(i + 1, n)))
        },
        None => None,
    }
}

/// The ASCII decimal digits.
pub open spec fn is_digit(c: char) -> bool {
    '0' <= c <= '9'
}

/// Every character is an ASCII decimal digit.
pub open spec fn all_digits(s: Seq<char>) -> bool {
    forall|i: int| 0 <= i < s.len() ==> is_digit(#[trigger] s[i])
}

/// Whether every character is an ASCII decimal digit.
pub fn only_digits(s: &str) -> (r: bool)
    ensures
        r == all_digits(s@),
{
    let v: Vec<char> = chars_of(s);
    let mut i: usize = 0;
    while i < v.len()
        invariant
            i <= v.len(),
            v@ == s@,
            forall|k: int| 0 <= k < i ==> is_digit(#[trigger] s@[k]),
        decreases v.len() - i,
    {
        if !('0' <= v[i] && v[i] <= '9') {
            assert(!is_digit(s@[i as int]));
            return false;
        }
        i = i + 1;
    }
    true
}

/// The characters with Unicode's White_Space property.
pub open spec fn is_white(c: char) -> bool {
    let n = c as u32;
    ||| 0x09 <= n <= 0x0d
    ||| n == 0x20
    ||| n == 0x85
    ||| n == 0xa0
    ||| n == 0x1680
    ||| 0x2000 <= n <= 0x200a
    ||| n == 0x2028
    ||| n == 0x2029
    ||| n == 0x202f
    ||| n == 0x205f
    ||| n == 0x3000
}

/// Whether a character has Unicode's White_Space property.
pub fn white(c: char) -> (r: bool)
    ensures
        r == is_white(c),
{
    let n: u32 = c as u32;
    (0x09 <= n && n <= 0x0d) || n == 0x20 || n == 0x85 || n == 0xa0 || n == 0x1680 || (0x2000 <= n
        && n <= 0x200a) || n == 0x2028 || n == 0x2029 || n == 0x202f || n == 0x205f || n == 0x3000
}

/// `s` without the white space at its end.
pub open spec fn trimmed_end(s: Seq<char>) -> Seq<char>
    decreases s.len(),
{
    if s.len() > 0 && is_white(s.last()) {
        trimmed_end(s.drop_last())
    } else {
        s
    }
}

/// `s` without the white space at its start.
pub open spec fn trimmed_start(s: Seq<char>) -> Seq<char>
    decreases s.len(),
{
    if s.len() > 0 && is_white(s[0]) {
        trimmed_start(s.drop_first())
    } else {
        s
    }
}

/// `s` without the white space at either end.
pub open spec fn trimmed(s: Seq<char>) -> Seq<char> {
    trimmed_end(trimmed_start(s))
}

/// `s` without the white space at either end.
pub fn trim<'a>(s: &'a str) -> (r: &'a str)
    ensures
        r@ == trimmed(s@),
{
    let v: Vec<char> = chars_of(s);
    let mut i: usize = 0;
    assert(s@.skip(0) =~= s@);
    while i < v.len() && white(v[i])
        invariant
            i <= v.len(),
            v@ == s@,
            trimmed_start(s@) == trimmed_start(s@.skip(i as int)),
        decreases v.len() - i,
    {
        assert(s@.skip(i as int).drop_first() =~= s@.skip(i + 1));
        i = i + 1;
    }
    let ghost t = s@.skip(i as int);
    assert(trimmed_start(s@) == t);
    let mut j: usize = v.len();
    assert(s@.subrange(i as int, j as int) =~= t);
    while j > i && white(v[j - 1])
        invariant
            i <= j <= v.len(),
            v@ == s@,
            trimmed_end(t) == trimmed_end(s@.subrange(i as int, j as int)),
        decreases j,
    {
        assert(s@.subrange(i as int, j as int).drop_last() =~= s@.subrange(i as int, j - 1));
        j = j - 1;
    }
    s.substring_char(i, j)
}

/// `s` without the `c`s at its start.
pub open spec fn without_leading(s: Seq<char>, c: char) -> Seq<char>
    decreases s.len(),
{
    if s.len() > 0 && s[0] == c {
        without_leading(s.drop_first(), c)
    } else {
        s
    }
}

/// `s` without the `c`s at its start.
pub fn trim_leading<'a>(s: &'a str, c: char) -> (r: &'a str)
    ensures
        r@ == without_leading(s@, c),
{
    let v: Vec<char> = chars_of(s);
    let mut i: usize = 0;
    assert(s@.skip(0) =~= s@);
    while i < v.len() && v[i] == c
        invariant
            i <= v.len(),
            v@ == s@,
            without_leading(s@, c) == without_leading(s@.skip(i as int), c),
        decreases v.len() - i,
    {
        assert(s@.skip(i as int).drop_first() =~= s@.skip(i + 1));
        i = i + 1;
    }
    tail_from(s, i)
}

/// `s` without the `c`s at its end.
pub open spec fn without_trailing(s: Seq<char>, c: char) -> Seq<char>
    decreases s.len(),
{
    if s.len() > 0 && s.last() == c {
        without_trailing(s.drop_last(), c)
    } else {
        s
    }
}

/// `s` without the `c`s at its end.
pub fn trim_trailing<'a>(s: &'a str, c: char) -> (r: &'a str)
    ensures
        r@ == without_trailing(s@, c),
{
    let v: Vec<char> = chars_of(s);
    let mut j: usize = v.len();
    assert(s@.take(s@.len() as int) =~= s@);
    while j > 0 && v[j - 1] == c
        invariant
            j <= v.len(),
            v@ == s@,
            without_trailing(s@, c) == without_trailing(s@.take(j as int), c),
        decreases j,
    {
        assert(s@.take(j as int).drop_last() =~= s@.take(j - 1));
        j = j - 1;
    }
    head_to(s, j)
}

/// The characters that `char::is_alphanumeric` accepts.
pub uninterp spec fn alphanumeric(c: char) -> bool;

/// `char::is_alphanumeric` depends on the character alone.
pub assume_specification[ char::is_alphanumeric ](c: char) -> (r: bool)
    ensures
        r == alphanumeric(c),
;

/// What `str::to_lowercase` puts in place of the character at place `i` of `s`.
pub uninterp spec fn lowercase_in(s: Seq<char>, i: int) -> Seq<char>;

/// The lower-case characters of the character at place `i` of `s`: of a capital sigma one of the
/// two small ones, by what stands around it; of an ASCII character one ASCII character; of any
/// other character the same wherever it stands.
pub open spec fn lowercase_at(s: Seq<char>, i: int) -> Seq<char> {
    if s[i] == '\u{3a3}' {
        if lowercase_in(s, i) == seq!['\u{3c2}'] {
            seq!['\u{3c2}']
        } else {
            seq!['\u{3c3}']
        }
    } else if is_ascii_char(s[i]) {
        seq![ascii_lower(s[i])]
    } else {
        lowercase_in(seq![s[i]], 0)
    }
}

/// The lower-case characters of the first `n` characters of `s`.
pub open spec fn lowercase_upto(s: Seq<char>, n: int) -> Seq<char>
    decreases n,
{
    if n <= 0 {
        Seq::empty()
    } else {
        lowercase_upto(s, n - 1) + lowercase_at(s, n - 1)
    }
}

/// A text in lower case, as `str::to_lowercase` gives it.
pub open spec fn lowercase_of(s: Seq<char>) -> Seq<char> {
    lowercase_upto(s, s.len() as int)
}

/// `str::to_lowercase` puts in place of each character its lower-case characters: of an ASCII
/// character the ASCII letter or the character itself, of a capital sigma the final form at the
/// end of a word and the other form elsewhere, and of any other character what Unicode maps it
/// to. Where a word ends, and that mapping, go through the name.
pub assume_specification[ str::to_lowercase ](s: &str) -> (r: String)
    ensures
        r@ == lowercase_of(s@),
        forall|i: int|
            0 <= i < s@.len() ==> #[trigger] lowercase_in(s@, i) == r@.subrange(
                lowercase_upto(s@, i).len() as int,
                lowercase_upto(s@, i + 1).len() as int,
            ),
;

/// Which characters a word is made of.
#[derive(Clone, Copy)]
pub enum WordKind {
    /// Letters and digits.
    Alphanumeric,
    /// All that is not white space.
    Printed,
}

impl WordKind {
    /// `c` belongs to a word.
    pub open spec fn keeps(self, c: char) -> bool {
        match self {
            WordKind::Alphanumeric => alphanumeric(c),
            WordKind::Printed => !is_white(c),
        }
    }

    fn admits(self, c: char) -> (r: bool)
        ensures
            r == self.keeps(c),
    {
        match self {
            WordKind::Alphanumeric => c.is_alphanumeric(),
            WordKind::Printed => !white(c),
        }
    }
}

/// The word at the end of `s`: its longest suffix of word characters.
pub open spec fn last_word(s: Seq<char>, kind: WordKind) -> Seq<char>
    decreases s.len(),
{
    if s.len() > 0 && kind.keeps(s.last()) {
        last_word(s.drop_last(), kind).push(s.last())
    } else {
        seq![]
    }
}

/// The words of `s` that are closed: those behind which another character stands.
pub open spec fn closed_words(s: Seq<char>, kind: WordKind) -> Seq<Seq<char>>
    decreases s.len(),
{
    if s.len() == 0 {
        seq![]
    } else if kind.keeps(s.last()) {
        closed_words(s.drop_last(), kind)
    } else {
        with_word(closed_words(s.drop_last(), kind), last_word(s.drop_last(), kind))
    }
}

/// `ws` followed by `w`, unless `w` is empty.
pub open spec fn with_word(ws: Seq<Seq<char>>, w: Seq<char>) -> Seq<Seq<char>> {
    if w.len() == 0 {
        ws
    } else {
        ws.push(w)
    }
}

/// The words of `s`: its maximal runs of word characters, in order.
pub open spec fn words(s: Seq<char>, kind: WordKind) -> Seq<Seq<char>> {
    with_word(closed_words(s, kind), last_word(s, kind))
}

/// The words of `s`, in order.
pub fn split_words(s: &str, kind: WordKind) -> (r: Vec<String>)
    ensures
        texts(r@) == words(s@, kind),
{
    let v: Vec<char> = chars_of(s);
    let mut out: Vec<String> = Vec::new();
    let mut cur: String = String::new();
    let mut i: usize = 0;
    assert(texts(out@) =~= closed_words(s@.take(0), kind));
    while i < v.len()
        invariant
            i <= v.len(),
            v@ == s@,
            texts(out@) == closed_words(s@.take(i as int), kind),
            cur@ == last_word(s@.take(i as int), kind),
        decreases v.len() - i,
    {
        let ghost t = s@.take(i + 1);
        assert(t.drop_last() =~= s@.take(i as int));
        assert(t.last() == s@[i as int]);
        if kind.admits(v[i]) {
            cur.push(v[i]);
        } else {
            if cur.as_str().unicode_len() > 0 {
                let ghost before = out@;
                out.push(cur);
                assert(texts(out@) =~= texts(before).push(cur@));
            }
            cur = String::new();
        }
        i = i + 1;
    }
    assert(s@.take(s@.len() as int) =~= s@);
    if cur.as_str().unicode_len() > 0 {
        let ghost before = out@;
        out.push(cur);
        assert(texts(out@) =~= texts(before).push(cur@));
    }
    out
}

/// The list of texts with `sep` between any two neighbours.
pub open spec fn joined(parts: Seq<Seq<char>>, sep: Seq<char>) -> Seq<char>
    decreases parts.len(),
{
    if parts.len() == 0 {
        seq![]
    } else if parts.len() == 1 {
        parts[0]
    } else {
        joined(parts.drop_last(), sep) + sep + parts.last()
    }
}

/// The strings in one, with `sep` between any two neighbours.
pub fn join(parts: &Vec<String>, sep: &str) -> (r: String)
    ensures
        r@ == joined(texts(parts@), sep@),
{
    let mut out: String = String::new();
    let ghost all = texts(parts@);
    assert(out@ =~= joined(all.take(0), sep@));
    let mut i: usize = 0;
    while i < parts.len()
        invariant
            i <= parts.len(),
            all == texts(parts@),
            all.len() == parts.len(),
            out@ == joined(all.take(i as int), sep@),
        decreases parts.len() - i,
    {
        let ghost t = all.take(i + 1);
        assert(t.drop_last() =~= all.take(i as int));
        assert(t.last() == parts@[i as int]@);
        if i > 0 {
            out.append(sep);
        }
        out.append(parts[i].as_str());
        assert(out@ =~= joined(t, sep@));
        i = i + 1;
    }
    assert(all.take(all.len() as int) =~= all);
    out
}

/// `s` with each `c` replaced by `by`.
pub open spec fn replaced(s: Seq<char>, c: char, by: Seq<char>) -> Seq<char>
    decreases s.len(),
{
    if s.len() == 0 {
        seq![]
    } else if s.last() == c {
        replaced(s.drop_last(), c, by) + by
    } else {
        replaced(s.drop_last(), c, by).push(s.last())
    }
}

/// `s` with each `c` replaced by `by`.
pub fn replace(s: &str, c: char, by: &str) -> (r: String)
    ensures
        r@ == replaced(s@, c, by@),
{
    let v: Vec<char> = chars_of(s);
    let mut out: String = String::new();
    let mut i: usize = 0;
    assert(out@ =~= replaced(s@.take(0), c, by@));
    while i < v.len()
        invariant
            i <= v.len(),
            v@ == s@,
            out@ == replaced(s@.take(i as int), c, by@),
        decreases v.len() - i,
    {
        let ghost t = s@.take(i + 1);
        assert(t.drop_last() =~= s@.take(i as int));
        assert(t.last() == s@[i as int]);
        if v[i] == c {
            out.append(by);
        } else {
            out.push(v[i]);
        }
        i = i + 1;
    }
    assert(s@.take(s@.len() as int) =~= s@);
    out
}

/// The decimal digit of a number below ten.
pub open spec fn digit_char(d: nat) -> char {
    (48 + d) as char
}

/// The decimal numeral of a number.
pub open spec fn decimal(n: nat) -> Seq<char>
    decreases n,
{
    if n < 10 {
        seq![digit_char(n)]
    } else {
        decimal(n / 10).push(digit_char(n % 10))
    }
}

/// Appends the decimal numeral of `n`.
pub fn push_decimal(s: &mut String, n: u64)
    ensures
        final(s)@ == old(s)@ + decimal(n as nat),
    decreases n,
{
    if n >= 10 {
        push_decimal(s, n / 10);
    }
    let d: u8 = 48 + (n % 10) as u8;
    s.push(d as char);
    assert(s@ =~= old(s)@ + decimal(n as nat));
}

/// The decimal numeral of `n`.
pub fn decimal_text(n: u64) -> (r: String)
    ensures
        r@ == decimal(n as nat),
{
    let mut s: String = String::new();
    push_decimal(&mut s, n);
    assert(s@ =~= decimal(n as nat));
    s
}

/// The value of a digit in a numeral to base 16 or less, or -1.
pub open spec fn digit_value(c: char) -> int {
    if '0' <= c <= '9' {
        c as int - 48
    } else if 'a' <= c <= 'f' {
        c as int - 87
    } else if 'A' <= c <= 'F' {
        c as int - 55
    } else {
        -1
    }
}

/// Every character is a digit to base `radix`.
pub open spec fn is_numeral(s: Seq<char>, radix: int) -> bool {
    forall|i: int| 0 <= i < s.len() ==> 0 <= #[trigger] digit_value(s[i]) < radix
}

/// The number that a numeral to base `radix` stands for.
pub open spec fn numeral_value(s: Seq<char>, radix: int) -> int
    decreases s.len(),
{
    if s.len() == 0 {
        0
    } else {
        numeral_value(s.drop_last(), radix) * radix + digit_value(s.last())
    }
}

/// What a text stands for as an unsigned 32-bit number: an optional plus sign, then one or
/// more digits whose value fits.
pub open spec fn parsed_u32(s: Seq<char>, radix: int) -> Option<u32> {
    let digits = if s.len() > 1 && s[0] == '+' {
        s.drop_first()
    } else {
        s
    };
    if digits.len() > 0 && is_numeral(digits, radix) && numeral_value(digits, radix) <= u32::MAX {
        Some(numeral_value(digits, radix) as u32)
    } else {
        None
    }
}

/// A numeral is worth no less than any of its prefixes.
proof fn lemma_numeral_grows(s: Seq<char>, radix: int, k: int)
    requires
        is_numeral(s, radix),
        1 <= radix,
        0 <= k <= s.len(),
    ensures
        0 <= numeral_value(s.take(k), radix) <= numeral_value(s, radix),
    decreases s.len(),
{
    if k == s.len() {
        assert(s.take(k) =~= s);
        if k > 0 {
            assert(is_numeral(s.drop_last(), radix));
            lemma_numeral_grows(s.drop_last(), radix, k - 1);
            assert(s.drop_last().take(k - 1) =~= s.drop_last());
            assert(0 <= digit_value(s.last()));
            let v = numeral_value(s.drop_last(), radix);
            assert(0 <= v * radix) by (nonlinear_arith)
                requires
                    0 <= v,
                    1 <= radix,
            ;
        }
    } else {
        let t = s.drop_last();
        assert(is_numeral(t, radix));
        lemma_numeral_grows(t, radix, k);
        assert(t.take(k) =~= s.take(k));
        let v = numeral_value(t, radix);
        assert(v <= v * radix) by (nonlinear_arith)
            requires
                0 <= v,
                1 <= radix,
        ;
        assert(0 <= digit_value(s.last()));
    }
}

fn digit_of(c: char) -> (r: Option<u32>)
    ensures
        match r {
            Some(d) => d == digit_value(c) && d < 16,
            None => digit_value(c) == -1,
        },
{
    let n: u32 = c as u32;
    if '0' <= c && c <= '9' {
        Some(n - 48)
    } else if 'a' <= c && c <= 'f' {
        Some(n - 87)
    } else if 'A' <= c && c <= 'F' {
        Some(n - 55)
    } else {
        None
    }
}

/// Reads an unsigned 32-bit number to base `radix`: an optional plus sign, then digits.
pub fn parse_u32(s: &str, radix: u32) -> (r: Option<u32>)
    requires
        2 <= radix <= 16,
    ensures
        r == parsed_u32(s@, radix as int),
{
    let v: Vec<char> = chars_of(s);
    let start: usize = if v.len() > 1 && v[0] == '+' {
        1
    } else {
        0
    };
    let ghost digits = s@.skip(start as int);
    proof {
        if start == 1 {
            assert(digits =~= s@.drop_first());
        } else {
            assert(digits =~= s@);
        }
    }
    if v.len() == 0 {
        return None;
    }
    let mut acc: u32 = 0;
    let mut i: usize = start;
    assert(digits.take(0) =~= seq![]);
    while i < v.len()
        invariant
            start <= i <= v.len(),
            v@ == s@,
            start <= 1,
            digits == s@.skip(start as int),
            2 <= radix <= 16,
            is_numeral(digits.take(i - start), radix as int),
            acc == numeral_value(digits.take(i - start), radix as int),
            parsed_u32(s@, radix as int) == (if digits.len() > 0 && is_numeral(
                digits,
                radix as int,
            ) && numeral_value(digits, radix as int) <= u32::MAX {
                Some(numeral_value(digits, radix as int) as u32)
            } else {
                None
            }),
        decreases v.len() - i,
    {
        let ghost k = i - start;
        let ghost t = digits.take(k + 1);
        assert(t.drop_last() =~= digits.take(k));
        assert(t.last() == digits[k]);
        assert(digits[k] == s@[i as int]);
        let d: u32 = match digit_of(v[i]) {
            Some(d) => d,
            None => {
                assert(!(0 <= digit_value(digits[k])));
                return None;
            },
        };
        if d >= radix {
            assert(!(digit_value(digits[k]) < radix));
            return None;
        }
        assert forall|j: int| 0 <= j < t.len() implies 0 <= #[trigger] digit_value(t[j])
            < radix as int by {
            if j < k {
                assert(t[j] == digits.take(k)[j]);
            }
        }
        assert(0 <= acc as u64 * radix as u64 <= 0xffff_ffff * 16) by (nonlinear_arith)
            requires
                acc <= 0xffff_ffff,
                radix <= 16,
        ;
        let next: u64 = acc as u64 * radix as u64 + d as u64;
        assert(next == numeral_value(t, radix as int));
        if next > 0xffff_ffff {
            proof {
                if is_numeral(digits, radix as int) {
                    lemma_numeral_grows(digits, radix as int, k + 1);
                }
            }
            return None;
        }
        acc = next as u32;
        i = i + 1;
    }
    assert(digits.take(digits.len() as int) =~= digits);
    Some(acc)
}

/// The number of bytes of the UTF-8 form of a text.
pub fn byte_len(s: &str) -> (r: usize)
    ensures
        r == vstd::utf8::encode_utf8(s@).len(),
{
    s.as_bytes().len()
}

/// The parts of `s` between the places of `c`, in order.
pub open spec fn split(s: Seq<char>, c: char) -> Seq<Seq<char>>
    decreases s.len(),
{
    if s.len() == 0 {
        seq![Seq::empty()]
    } else {
        let before = split(s.drop_last(), c);
        if s.last() == c {
            before.push(Seq::empty())
        } else {
            before.drop_last().push(before.last().push(s.last()))
        }
    }
}

/// The parts of `s` between the places of `c`, in order.
pub fn split_at_char(s: &str, c: char) -> (r: Vec<String>)
    ensures
        texts(r@) == split(s@, c),
{
    let v: Vec<char> = chars_of(s);
    let mut out: Vec<String> = Vec::new();
    let mut cur: String = String::new();
    let mut i: usize = 0;
    assert(s@.take(0) =~= Seq::empty());
    assert(texts(out@).push(cur@) =~= split(s@.take(0), c));
    while i < v.len()
        invariant
            i <= v.len(),
            v@ == s@,
            texts(out@).push(cur@) == split(s@.take(i as int), c),
        decreases v.len() - i,
    {
        let ghost t = s@.take(i as int + 1);
        assert(t.drop_last() =~= s@.take(i as int));
        assert(t.last() == s@[i as int]);
        let ghost before = out@;
        let ghost word = cur@;
        if v[i] == c {
            out.push(cur);
            cur = String::new();
            assert(texts(out@) =~= texts(before).push(word));
            assert(texts(out@).push(cur@) =~= split(t, c));
        } else {
            cur.push(v[i]);
            assert(split(s@.take(i as int), c).drop_last() =~= texts(before));
            assert(texts(out@).push(cur@) =~= split(t, c));
        }
        i = i + 1;
    }
    assert(s@.take(s@.len() as int) =~= s@);
    let ghost before = out@;
    let ghost word = cur@;
    out.push(cur);
    assert(texts(out@) =~= texts(before).push(word));
    out
}

/// The texts of a list, trimmed, without the empty ones.
pub open spec fn filled(list: Seq<Seq<char>>) -> Seq<Seq<char>>
    decreases list.len(),
{
    if list.len() == 0 {
        Seq::empty()
    } else {
        with_word(filled(list.drop_last()), trimmed(list.last()))
    }
}

/// The texts of a list, trimmed, without the empty ones.
pub fn filled_texts(list: &Vec<String>) -> (r: Vec<String>)
    ensures
        texts(r@) == filled(texts(list@)),
{
    let ghost all = texts(list@);
    let mut out: Vec<String> = Vec::new();
    let mut i: usize = 0;
    assert(texts(out@) =~= filled(all.take(0)));
    while i < list.len()
        invariant
            i <= list.len(),
            all == texts(list@),
            texts(out@) == filled(all.take(i as int)),
        decreases list.len() - i,
    {
        let ghost t = all.take(i as int + 1);
        assert(t.drop_last() =~= all.take(i as int));
        assert(t.last() == list@[i as int]@);
        let s: &str = trim(list[i].as_str());
        if s.unicode_len() > 0 {
            let ghost before = out@;
            out.push(s.to_owned());
            assert(texts(out@) =~= texts(before).push(s@));
        }
        i = i + 1;
    }
    assert(all.take(all.len() as int) =~= all);
    out
}

/// A character of ASCII.
pub open spec fn is_ascii_char(c: char) -> bool {
    (c as u32) < 0x80
}

/// A character with ASCII capitals made small.
pub open spec fn ascii_lower(c: char) -> char {
    if 'A' <= c <= 'Z' {
        ((c as u8) + 32) as u8 as char
    } else {
        c
    }
}

/// A text with ASCII capitals made small.
pub open spec fn ascii_lowered(s: Seq<char>) -> Seq<char> {
    s.map_values(|c: char| ascii_lower(c))
}

/// A character with ASCII capitals made small.
pub fn lower_ascii(c: char) -> (r: char)
    ensures
        r == ascii_lower(c),
{
    if 'A' <= c && c <= 'Z' {
        ((c as u8) + 32) as char
    } else {
        c
    }
}

/// A text with ASCII capitals made small.
pub fn to_ascii_lower(s: &str) -> (r: String)
    ensures
        r@ == ascii_lowered(s@),
{
    let v: Vec<char> = chars_of(s);
    let mut out: String = String::new();
    let mut i: usize = 0;
    assert(out@ =~= ascii_lowered(s@.take(0)));
    while i < v.len()
        invariant
            i <= v.len(),
            v@ == s@,
            out@ == ascii_lowered(s@.take(i as int)),
        decreases v.len() - i,
    {
        out.push(lower_ascii(v[i]));
        assert(out@ =~= ascii_lowered(s@.take(i as int + 1)));
        i = i + 1;
    }
    assert(s@.take(s@.len() as int) =~= s@);
    out
}

/// Whether two texts are the same but for the case of ASCII letters.
pub fn same_ignoring_case(a: &str, b: &str) -> (r: bool)
    ensures
        r == (ascii_lowered(a@) == ascii_lowered(b@)),
{
    same_text(to_ascii_lower(a).as_str(), to_ascii_lower(b).as_str())
}

/// A number stands for a character: it is in range, and no surrogate.
pub open spec fn is_char_code(n: u32) -> bool {
    n <= 0xd7ff || 0xe000 <= n <= 0x10ffff
}

/// `char::from_u32` gives the character with this number, where there is one.
pub assume_specification[ char::from_u32 ](n: u32) -> (r: Option<char>)
    ensures
        match r {
            Some(c) => is_char_code(n) && c as u32 == n,
            None => !is_char_code(n),
        },
;

/// A character is the one that its number stands for.
pub proof fn lemma_char_of_code(c: char, n: u32)
    requires
        c as u32 == n,
    ensures
        c == n as char,
{
}

/// A character with small ASCII letters made capital.
pub open spec fn ascii_upper(c: char) -> char {
    if 'a' <= c <= 'z' {
        ((c as u8) - 32) as u8 as char
    } else {
        c
    }
}

/// A text with small ASCII letters made capital.
pub open spec fn ascii_uppered(s: Seq<char>) -> Seq<char> {
    s.map_values(|c: char| ascii_upper(c))
}

/// All characters of a text are ASCII.
pub open spec fn is_ascii_text(s: Seq<char>) -> bool {
    forall|i: int| 0 <= i < s.len() ==> is_ascii_char(#[trigger] s[i])
}

/// A text with the final form of a small sigma replaced by the other one.
pub open spec fn plain_sigmas(s: Seq<char>) -> Seq<char> {
    s.map_values(
        |c: char|
            if c == '\u{3c2}' {
                '\u{3c3}'
            } else {
                c
            },
    )
}

/// The lower-case characters of a character, with one form of the small sigma.
pub open spec fn folded_char(c: char) -> Seq<char> {
    if c == '\u{3a3}' {
        seq!['\u{3c3}']
    } else if is_ascii_char(c) {
        seq![ascii_lower(c)]
    } else {
        plain_sigmas(lowercase_in(seq![c], 0))
    }
}

/// A text in lower case, with one form of the small sigma.
pub open spec fn folded(s: Seq<char>) -> Seq<char>
    decreases s.len(),
{
    if s.len() == 0 {
        Seq::empty()
    } else {
        folded(s.drop_last()) + folded_char(s.last())
    }
}

proof fn lemma_folded(s: Seq<char>, n: int)
    requires
        0 <= n <= s.len(),
    ensures
        plain_sigmas(lowercase_upto(s, n)) == folded(s.take(n)),
    decreases n,
{
    let t = s.take(n);
    if n == 0 {
        assert(plain_sigmas(lowercase_upto(s, n)) =~= folded(t));
    } else {
        lemma_folded(s, n - 1);
        assert(t.drop_last() =~= s.take(n - 1));
        assert(t.last() == s[n - 1]);
        let c = s[n - 1];
        assert(plain_sigmas(lowercase_at(s, n - 1)) =~= folded_char(c));
        assert(plain_sigmas(lowercase_upto(s, n)) =~= plain_sigmas(lowercase_upto(s, n - 1))
            + plain_sigmas(lowercase_at(s, n - 1)));
    }
}

proof fn lemma_folded_parts(a: Seq<char>, b: Seq<char>)
    ensures
        folded(a + b) == folded(a) + folded(b),
    decreases b.len(),
{
    if b.len() == 0 {
        assert(a + b =~= a);
        assert(folded(a) + folded(b) =~= folded(a));
    } else {
        lemma_folded_parts(a, b.drop_last());
        assert((a + b).drop_last() =~= a + b.drop_last());
        assert(folded(a + b) =~= folded(a) + folded(b));
    }
}

proof fn lemma_folded_capitals(s: Seq<char>)
    ensures
        folded(ascii_uppered(s)) == folded(s),
    decreases s.len(),
{
    if s.len() > 0 {
        lemma_folded_capitals(s.drop_last());
        assert(ascii_uppered(s).drop_last() =~= ascii_uppered(s.drop_last()));
        let c = s.last();
        assert(ascii_uppered(s).last() == ascii_upper(c));
        assert(folded_char(ascii_upper(c)) =~= folded_char(c));
    } else {
        assert(ascii_uppered(s) =~= s);
    }
}

proof fn lemma_ascii_in_folded(s: Seq<char>, p: Seq<char>)
    requires
        is_ascii_text(p),
    ensures
        contains_text(lowercase_of(s), p) == contains_text(folded(s), p),
{
    lemma_folded(s, s.len() as int);
    assert(s.take(s.len() as int) =~= s);
    let low = lowercase_of(s);
    let fold = folded(s);
    assert forall|i: int| occurs_at(low, p, i) == #[trigger] occurs_at(fold, p, i) by {
        if 0 <= i && i + p.len() <= low.len() {
            let x = low.subrange(i, i + p.len());
            let y = fold.subrange(i, i + p.len());
            assert forall|k: int| 0 <= k < p.len() implies (x[k] == p[k]) == (#[trigger] y[k]
                == p[k]) by {
                assert(is_ascii_char(p[k]));
                assert(fold[i + k] == plain_sigmas(low)[i + k]);
            }
            if x == p {
                assert forall|k: int| 0 <= k < p.len() implies y[k] == p[k] by {
                    assert(x[k] == p[k]);
                }
                assert(y =~= p);
            }
            if y == p {
                assert forall|k: int| 0 <= k < p.len() implies x[k] == p[k] by {
                    assert(y[k] == p[k]);
                }
                assert(x =~= p);
            }
        }
    }
    if contains_text(low, p) {
        let i = choose|i: int| occurs_at(low, p, i);
        assert(occurs_at(fold, p, i));
    }
    if contains_text(fold, p) {
        let i = choose|i: int| occurs_at(fold, p, i);
        assert(occurs_at(low, p, i));
    }
}

/// What stands around a text hides no ASCII words that its lower case holds.
pub proof fn law_surroundings_hide_no_words(
    before: Seq<char>,
    s: Seq<char>,
    behind: Seq<char>,
    p: Seq<char>,
)
    requires
        is_ascii_text(p),
        contains_text(lowercase_of(s), p),
    ensures
        contains_text(lowercase_of(before + s + behind), p),
{
    lemma_ascii_in_folded(s, p);
    lemma_ascii_in_folded(before + s + behind, p);
    lemma_folded_parts(before + s, behind);
    lemma_folded_parts(before, s);
    let inner = folded(s);
    let outer = folded(before + s + behind);
    let i = choose|i: int| occurs_at(inner, p, i);
    let j = folded(before).len() + i;
    assert(outer.subrange(j, j + p.len()) =~= inner.subrange(i, i + p.len()));
    assert(occurs_at(outer, p, j));
}

/// The case of ASCII letters does not matter to which ASCII words the lower case of a text holds.
pub proof fn law_case_hides_no_words(s: Seq<char>, p: Seq<char>)
    requires
        is_ascii_text(p),
    ensures
        contains_text(lowercase_of(ascii_uppered(s)), p) == contains_text(lowercase_of(s), p),
{
    lemma_ascii_in_folded(s, p);
    lemma_ascii_in_folded(ascii_uppered(s), p);
    lemma_folded_capitals(s);
}

/// A text stands in another exactly where that is something, the text, and something more.
pub proof fn law_a_text_stands_between_two_others(s: Seq<char>, p: Seq<char>)
    ensures
        contains_text(s, p) <==> exists|a: Seq<char>, b: Seq<char>| #[trigger] (a + p + b) == s,
        has_prefix(s, p) <==> exists|b: Seq<char>| #[trigger] (p + b) == s,
        has_suffix(s, p) <==> exists|a: Seq<char>| #[trigger] (a + p) == s,
{
    if contains_text(s, p) {
        let i = choose|i: int| occurs_at(s, p, i);
        assert(s.take(i) + p + s.skip(i + p.len()) =~= s) by {
            assert forall|k: int| 0 <= k < s.len() implies (s.take(i) + p + s.skip(i + p.len()))[k]
                == s[k] by {
                if i <= k < i + p.len() {
                    assert(s.subrange(i, i + p.len())[k - i] == s[k]);
                }
            }
        }
    }
    if exists|a: Seq<char>, b: Seq<char>| #[trigger] (a + p + b) == s {
        let (a, b) = choose|a: Seq<char>, b: Seq<char>| #[trigger] (a + p + b) == s;
        lemma_stands_between(a, p, b);
    }
    if has_prefix(s, p) {
        assert(p + s.skip(p.len() as int) =~= s) by {
            assert forall|k: int| 0 <= k < p.len() implies p[k] == s[k] by {
                assert(s.subrange(0, p.len() as int)[k] == s[k]);
            }
        }
    }
    if exists|b: Seq<char>| #[trigger] (p + b) == s {
        let b = choose|b: Seq<char>| #[trigger] (p + b) == s;
        assert(s.subrange(0, p.len() as int) =~= p);
    }
    if has_suffix(s, p) {
        let n = s.len() - p.len();
        assert(s.take(n) + p =~= s) by {
            assert forall|k: int| n <= k < s.len() implies p[k - n] == s[k] by {
                assert(s.subrange(n, n + p.len())[k - n] == s[k]);
            }
        }
    }
    if exists|a: Seq<char>| #[trigger] (a + p) == s {
        let a = choose|a: Seq<char>| #[trigger] (a + p) == s;
        assert(s.subrange(a.len() as int, (a.len() + p.len()) as int) =~= p);
    }
}

/// What stands between two texts stands in the three together.
pub proof fn lemma_stands_between(a: Seq<char>, p: Seq<char>, b: Seq<char>)
    ensures
        contains_text(a + p + b, p),
{
    assert((a + p + b).subrange(a.len() as int, (a.len() + p.len()) as int) =~= p);
    assert(occurs_at(a + p + b, p, a.len() as int));
}

/// What stands in a text stands in every longer one around it.
pub proof fn lemma_stands_within(a: Seq<char>, s: Seq<char>, b: Seq<char>, p: Seq<char>)
    requires
        contains_text(s, p),
    ensures
        contains_text(a + s + b, p),
{
    let i = choose|i: int| occurs_at(s, p, i);
    let t = a + s + b;
    let j = a.len() + i;
    assert(t.subrange(j, j + p.len()) =~= s.subrange(i, i + p.len()));
    assert(occurs_at(t, p, j));
}

/// A list of texts in one: nothing of an empty list, a single text as it is, and of two lists
/// behind each other what each of them gives, with the separator between.
pub proof fn law_joining_lists(a: Seq<Seq<char>>, b: Seq<Seq<char>>, sep: Seq<char>)
    requires
        a.len() > 0,
        b.len() > 0,
    ensures
        joined(a + b, sep) == joined(a, sep) + sep + joined(b, sep),
        a.len() == 1 ==> joined(a, sep) == a[0],
        joined(Seq::empty(), sep).len() == 0,
    decreases b.len(),
{
    let whole = a + b;
    assert(whole.last() == b.last());
    if b.len() == 1 {
        assert(whole.drop_last() =~= a);
    } else {
        assert(whole.drop_last() =~= a + b.drop_last());
        law_joining_lists(a, b.drop_last(), sep);
        assert(joined(whole, sep) =~= joined(a, sep) + sep + joined(b, sep));
    }
}

/// Every text of a list stands in the list as one text.
pub proof fn law_joined_texts_are_there(parts: Seq<Seq<char>>, sep: Seq<char>, i: int)
    requires
        0 <= i < parts.len(),
    ensures
        contains_text(joined(parts, sep), parts[i]),
    decreases parts.len(),
{
    if parts.len() == 1 {
        lemma_stands_between(Seq::empty(), parts[0], Seq::empty());
        assert(Seq::<char>::empty() + parts[0] + Seq::<char>::empty() =~= parts[0]);
    } else {
        let init = parts.drop_last();
        let front = joined(init, sep);
        if i < init.len() {
            law_joined_texts_are_there(init, sep, i);
            lemma_stands_within(Seq::empty(), front, sep + parts.last(), parts[i]);
            assert(Seq::<char>::empty() + front + (sep + parts.last()) =~= joined(parts, sep));
        } else {
            lemma_stands_between(front + sep, parts[i], Seq::empty());
            assert(front + sep + parts[i] + Seq::<char>::empty() =~= joined(parts, sep));
        }
    }
}

/// The parts of a text between the places of a character do not hold it, and put together with
/// it between them they are the text again.
pub proof fn law_splitting_loses_nothing(s: Seq<char>, c: char)
    ensures
        split(s, c).len() > 0,
        joined(split(s, c), seq![c]) == s,
        forall|i: int| 0 <= i < split(s, c).len() ==> !(#[trigger] split(s, c)[i]).contains(c),
    decreases s.len(),
{
    let now = split(s, c);
    if s.len() == 0 {
        assert(joined(now, seq![c]) =~= s);
    } else {
        let init = s.drop_last();
        law_splitting_loses_nothing(init, c);
        let before = split(init, c);
        if s.last() == c {
            assert(now.drop_last() =~= before);
            assert(joined(now, seq![c]) =~= s);
        } else {
            let front = before.drop_last();
            assert(now.drop_last() =~= front);
            if before.len() == 1 {
                assert(before.last() == init);
                assert(joined(now, seq![c]) =~= s);
            } else {
                assert(joined(before, seq![c]) == joined(front, seq![c]) + seq![c] + before.last());
                assert(now.last() == before.last().push(s.last()));
                assert(joined(now, seq![c]) == joined(front, seq![c]) + seq![c] + now.last());
                assert(joined(now, seq![c]) =~= joined(before, seq![c]).push(s.last()));
                assert(init.push(s.last()) =~= s);
            }
            let grown = before.last().push(s.last());
            assert forall|i: int| 0 <= i < now.len() implies !(#[trigger] now[i]).contains(c) by {
                if i < front.len() {
                    assert(now[i] == before[i]);
                } else {
                    assert(!before[before.len() - 1].contains(c));
                    if grown.contains(c) {
                        let k = choose|k: int| 0 <= k < grown.len() && grown[k] == c;
                        assert(before.last()[k] == c);
                    }
                }
            }
        }
    }
}

/// All characters of a text are white space.
pub open spec fn is_blank(s: Seq<char>) -> bool {
    forall|i: int| 0 <= i < s.len() ==> is_white(#[trigger] s[i])
}

/// Trimming takes white space from both ends, nothing else, and leaves none there.
pub proof fn law_trimming_takes_white_space_alone(s: Seq<char>)
    ensures
        exists|a: Seq<char>, b: Seq<char>|
            is_blank(a) && is_blank(b) && #[trigger] (a + trimmed(s) + b) == s,
        trimmed(s).len() > 0 ==> !is_white(trimmed(s)[0]) && !is_white(trimmed(s).last()),
        is_blank(s) ==> trimmed(s).len() == 0,
{
    let a = lemma_trimmed_start(s);
    let t = trimmed_start(s);
    let b = lemma_trimmed_end(t);
    assert(a + trimmed(s) + b =~= s);
    if trimmed(s).len() > 0 {
        assert(trimmed(s)[0] == t[0]);
    }
    if is_blank(s) && trimmed(s).len() > 0 {
        assert(s[a.len() as int] == trimmed(s)[0]);
    }
}

proof fn lemma_trimmed_start(s: Seq<char>) -> (a: Seq<char>)
    ensures
        is_blank(a),
        a + trimmed_start(s) == s,
        trimmed_start(s).len() > 0 ==> !is_white(trimmed_start(s)[0]),
    decreases s.len(),
{
    if s.len() > 0 && is_white(s[0]) {
        let rest = lemma_trimmed_start(s.drop_first());
        let a = seq![s[0]] + rest;
        assert(rest + trimmed_start(s) == s.drop_first());
        assert(a + trimmed_start(s) =~= seq![s[0]] + (rest + trimmed_start(s)));
        assert(seq![s[0]] + s.drop_first() =~= s);
        a
    } else {
        assert(Seq::<char>::empty() + s =~= s);
        Seq::empty()
    }
}

proof fn lemma_trimmed_end(s: Seq<char>) -> (b: Seq<char>)
    ensures
        is_blank(b),
        trimmed_end(s) + b == s,
        trimmed_end(s).len() > 0 ==> !is_white(trimmed_end(s).last()),
    decreases s.len(),
{
    if s.len() > 0 && is_white(s.last()) {
        let rest = lemma_trimmed_end(s.drop_last());
        let b = rest.push(s.last());
        assert(trimmed_end(s) + rest == s.drop_last());
        assert(trimmed_end(s) + b =~= (trimmed_end(s) + rest).push(s.last()));
        assert(s.drop_last().push(s.last()) =~= s);
        b
    } else {
        assert(s + Seq::<char>::empty() =~= s);
        Seq::empty()
    }
}

/// The words of a text: none of an empty one, a text of word characters alone as it is, and of
/// two texts with another character between them the words of each.
pub proof fn law_words_end_at_other_characters(a: Seq<char>, c: char, b: Seq<char>, kind: WordKind)
    requires
        !kind.keeps(c),
    ensures
        words(a.push(c) + b, kind) == words(a, kind) + words(b, kind),
    decreases b.len(),
{
    let s = a.push(c) + b;
    if b.len() == 0 {
        assert(s =~= a.push(c));
        assert(s.drop_last() =~= a);
        assert(words(b, kind) =~= Seq::empty());
        assert(words(s, kind) =~= words(a, kind));
    } else {
        let init = b.drop_last();
        law_words_end_at_other_characters(a, c, init, kind);
        lemma_last_word(a, c, b, kind);
        lemma_last_word(a, c, init, kind);
        assert(s.drop_last() =~= a.push(c) + init);
        lemma_closed_words(a, c, b, kind);
        assert(words(s, kind) =~= words(a, kind) + words(b, kind));
    }
}

proof fn lemma_last_word(a: Seq<char>, c: char, b: Seq<char>, kind: WordKind)
    requires
        !kind.keeps(c),
    ensures
        last_word(a.push(c) + b, kind) == last_word(b, kind),
    decreases b.len(),
{
    let s = a.push(c) + b;
    if b.len() == 0 {
        assert(s =~= a.push(c));
    } else {
        assert(s.drop_last() =~= a.push(c) + b.drop_last());
        lemma_last_word(a, c, b.drop_last(), kind);
    }
}

proof fn lemma_closed_words(a: Seq<char>, c: char, b: Seq<char>, kind: WordKind)
    requires
        !kind.keeps(c),
    ensures
        closed_words(a.push(c) + b, kind) == words(a, kind) + closed_words(b, kind),
    decreases b.len(),
{
    let s = a.push(c) + b;
    if b.len() == 0 {
        assert(s =~= a.push(c));
        assert(s.drop_last() =~= a);
        assert(words(a, kind) + closed_words(b, kind) =~= words(a, kind));
    } else {
        assert(s.drop_last() =~= a.push(c) + b.drop_last());
        lemma_closed_words(a, c, b.drop_last(), kind);
        lemma_last_word(a, c, b.drop_last(), kind);
        assert(closed_words(s, kind) =~= words(a, kind) + closed_words(b, kind));
    }
}

/// A text of word characters alone is one word; an empty text has none.
pub proof fn law_a_text_without_gaps_is_one_word(s: Seq<char>, kind: WordKind)
    requires
        forall|i: int| 0 <= i < s.len() ==> kind.keeps(#[trigger] s[i]),
    ensures
        s.len() == 0 ==> words(s, kind).len() == 0,
        s.len() > 0 ==> words(s, kind) == seq![s],
{
    lemma_no_gaps(s, kind);
    if s.len() > 0 {
        assert(words(s, kind) =~= seq![s]);
    }
}

proof fn lemma_no_gaps(s: Seq<char>, kind: WordKind)
    requires
        forall|i: int| 0 <= i < s.len() ==> kind.keeps(#[trigger] s[i]),
    ensures
        last_word(s, kind) == s,
        closed_words(s, kind).len() == 0,
    decreases s.len(),
{
    if s.len() > 0 {
        let init = s.drop_last();
        assert forall|i: int| 0 <= i < init.len() implies kind.keeps(#[trigger] init[i]) by {
            assert(init[i] == s[i]);
        }
        assert(kind.keeps(s[s.len() - 1]));
        lemma_no_gaps(init, kind);
        assert(last_word(s, kind) =~= s);
    } else {
        assert(last_word(s, kind) =~= s);
    }
}

/// The decimal numeral of a number is made of digits, does not begin with a zero unless it is
/// one, and stands for the number.
pub proof fn law_a_numeral_stands_for_its_number(n: nat)
    ensures
        decimal(n).len() > 0,
        is_numeral(decimal(n), 10),
        all_digits(decimal(n)),
        numeral_value(decimal(n), 10) == n,
        n > 0 ==> decimal(n)[0] != '0',
    decreases n,
{
    reveal_with_fuel(numeral_value, 2);
    if n < 10 {
        assert(digit_value(digit_char(n)) == n);
        assert(decimal(n).drop_last() =~= Seq::empty());
    } else {
        law_a_numeral_stands_for_its_number(n / 10);
        let front = decimal(n / 10);
        let d = digit_char(n % 10);
        assert(digit_value(d) == n % 10);
        assert(decimal(n).drop_last() =~= front);
        assert(decimal(n).last() == d);
        assert forall|i: int| 0 <= i < decimal(n).len() implies 0 <= #[trigger] digit_value(
            decimal(n)[i],
        ) < 10 by {
            if i < front.len() {
                assert(decimal(n)[i] == front[i]);
                assert(0 <= digit_value(front[i]) < 10);
            }
        }
        assert forall|i: int| 0 <= i < decimal(n).len() implies is_digit(#[trigger] decimal(n)[i]) by {
            if i < front.len() {
                assert(decimal(n)[i] == front[i]);
            }
        }
    }
}

/// The first characters of a text are as many as asked, or all of it.
pub proof fn law_the_start_of_a_text(s: Seq<char>, n: nat)
    ensures
        has_prefix(s, at_most(s, n)),
        at_most(s, n).len() == if s.len() < n {
            s.len()
        } else {
            n
        },
{
    assert(s.subrange(0, at_most(s, n).len() as int) =~= at_most(s, n));
}

/// No word is empty.
pub proof fn lemma_words_have_characters(s: Seq<char>, kind: WordKind)
    ensures
        forall|i: int| 0 <= i < words(s, kind).len() ==> (#[trigger] words(s, kind)[i]).len() > 0,
{
    lemma_closed_words_have_characters(s, kind);
    let list = closed_words(s, kind);
    assert forall|i: int| 0 <= i < words(s, kind).len() implies (
    #[trigger] words(s, kind)[i]).len() > 0 by {
        if i < list.len() {
            assert(words(s, kind)[i] == list[i]);
        }
    }
}

proof fn lemma_closed_words_have_characters(s: Seq<char>, kind: WordKind)
    ensures
        forall|i: int|
            0 <= i < closed_words(s, kind).len() ==> (#[trigger] closed_words(s, kind)[i]).len() > 0,
    decreases s.len(),
{
    if s.len() > 0 {
        lemma_closed_words_have_characters(s.drop_last(), kind);
        let before = closed_words(s.drop_last(), kind);
        let now = closed_words(s, kind);
        assert forall|i: int| 0 <= i < now.len() implies (#[trigger] now[i]).len() > 0 by {
            if i < before.len() {
                assert(now[i] == before[i]);
            }
        }
    }
}

} // verus!
