//! Browsing sessions that keep to one topic.

use vstd::prelude::*;
use vstd::string::*;
use vstd::utf8::encode_utf8;

use crate::config::{strip_port, without_port};
use crate::lists::{
    count, count_of, distinct, distinct_texts, find_most_frequent, given_by,
    law_distinct_holds_each_text_once, law_the_most_frequent_text, lemma_picked, lemma_picked_none,
    lemma_picked_one_more, list_contains, most_frequent, picked, push_text,
};
use crate::order::{
    arranged, codes, law_sorting_keeps_every_entry, lemma_arranged_by, ranks, reverse, sort_by_keys,
    stable_order, text_before, Key, Rank,
};
use crate::score::Score;
use crate::text::{
    before_first, byte_len, first_of, has_prefix, join, joined, last_at, lemma_first_of_unique,
    lemma_last_at, lowercase_of, opt_bytes, same_text, split_words, strip_prefix, texts, words,
    WordKind,
};
use crate::time::{minutes_between, whole_minutes, write_as, written_time, Timestamp};

verus! {

/// A visited page, with the bytes of its embedding where it has one.
pub struct PageForClustering {
    pub url: String,
    pub title: String,
    pub visited_at: Timestamp,
    pub embedding: Option<Vec<u8>>,
}

/// What a page stands for.
#[verifier::ext_equal]
pub struct Visit {
    pub url: Seq<char>,
    pub title: Seq<char>,
    pub visited_at: Timestamp,
    pub embedding: Option<Seq<u8>>,
}

impl View for PageForClustering {
    type V = Visit;

    open spec fn view(&self) -> Visit {
        Visit {
            url: self.url@,
            title: self.title@,
            visited_at: self.visited_at,
            embedding: opt_bytes(self.embedding),
        }
    }
}

/// A page of a cluster.
#[derive(Debug, Clone)]
pub struct ClusterPage {
    pub url: String,
    pub title: String,
}

/// A session that keeps to one topic.
#[derive(Debug, Clone)]
pub struct Cluster {
    pub label: String,
    /// Average pairwise similarity of the embeddings, or the overlap of the titles.
    pub score: Score,
    pub started_at: String,
    pub ended_at: String,
    pub duration_mins: i64,
    /// The most frequent domain of the session, by which topics are hidden.
    pub dominant_domain: String,
    pub domains: Vec<String>,
    pub pages: Vec<ClusterPage>,
}

/// What a cluster stands for.
#[verifier::ext_equal]
pub struct Topic {
    pub label: Seq<char>,
    pub score: Score,
    pub started_at: Seq<char>,
    pub ended_at: Seq<char>,
    pub duration_mins: int,
    pub dominant_domain: Seq<char>,
    pub domains: Seq<Seq<char>>,
    pub pages: Seq<(Seq<char>, Seq<char>)>,
}

impl View for Cluster {
    type V = Topic;

    open spec fn view(&self) -> Topic {
        Topic {
            label: self.label@,
            score: self.score,
            started_at: self.started_at@,
            ended_at: self.ended_at@,
            duration_mins: self.duration_mins as int,
            dominant_domain: self.dominant_domain@,
            domains: texts(self.domains@),
            pages: Seq::new(
                self.pages@.len(),
                |i: int| (self.pages@[i].url@, self.pages@[i].title@),
            ),
        }
    }
}

/// A longer pause than this, in minutes, ends a session.
pub const SESSION_GAP_MINS: i64 = 30;

/// A cluster has at least this many pages.
pub const MIN_PAGES: usize = 3;

/// The least score of a cluster, 0.35.
pub const MIN_SCORE_BITS: u32 = 0x3eb3_3333;

/// What the pages of a list stand for.
pub open spec fn visits(pages: Seq<PageForClustering>) -> Seq<Visit> {
    Seq::new(pages.len(), |i: int| pages[i]@)
}

/// What the sessions of a list stand for.
pub open spec fn session_visits(sessions: Seq<Vec<PageForClustering>>) -> Seq<Seq<Visit>> {
    Seq::new(sessions.len(), |i: int| visits(sessions[i]@))
}

/// The calendar holds the time of each page.
pub open spec fn times_valid(pages: Seq<Visit>) -> bool {
    forall|i: int| 0 <= i < pages.len() ==> (#[trigger] pages[i]).visited_at.valid()
}

/// The sorting keys of pages: oldest first.
pub open spec fn oldest_first(pages: Seq<Visit>) -> Seq<Rank> {
    Seq::new(
        pages.len(),
        |i: int|
            Rank {
                major: pages[i].visited_at.secs as int,
                minor: pages[i].visited_at.nanos as int,
                text: Seq::empty(),
            },
    )
}

/// Pages in the order of time.
pub open spec fn by_time(pages: Seq<Visit>) -> Seq<Visit> {
    arranged(pages, oldest_first(pages))
}

/// A new session begins with the last page of a list.
pub open spec fn breaks(pages: Seq<Visit>) -> bool {
    pages.len() < 2 || whole_minutes(pages.last().visited_at, pages[pages.len() - 2].visited_at)
        > SESSION_GAP_MINS
}

/// The sessions of a list of pages in the order of time: a pause of more than half an hour
/// between a page and the next ends one.
pub open spec fn sessions_of(pages: Seq<Visit>) -> Seq<Seq<Visit>>
    decreases pages.len(),
{
    if pages.len() == 0 {
        Seq::empty()
    } else {
        let before = sessions_of(pages.drop_last());
        if breaks(pages) {
            before.push(seq![pages.last()])
        } else {
            before.drop_last().push(before.last().push(pages.last()))
        }
    }
}

/// The sessions put behind each other.
pub open spec fn all_of(sessions: Seq<Seq<Visit>>) -> Seq<Visit>
    decreases sessions.len(),
{
    if sessions.len() == 0 {
        Seq::empty()
    } else {
        all_of(sessions.drop_last()) + sessions.last()
    }
}

/// No session is empty, and put behind each other the sessions are the list again: none of its
/// pages is lost, doubled or moved.
pub proof fn law_sessions_hold_every_page(pages: Seq<Visit>)
    ensures
        all_of(sessions_of(pages)) == pages,
        pages.len() > 0 ==> sessions_of(pages).len() > 0,
        forall|i: int| 0 <= i < sessions_of(pages).len() ==> (#[trigger] sessions_of(pages)[i]).len() > 0,
    decreases pages.len(),
{
    if pages.len() > 0 {
        let init = pages.drop_last();
        law_sessions_hold_every_page(init);
        let before = sessions_of(init);
        let now = sessions_of(pages);
        if breaks(pages) {
            assert(now.drop_last() =~= before);
            assert(all_of(now) =~= pages);
        } else {
            assert(before.len() > 0);
            assert(now.drop_last() =~= before.drop_last());
            assert(all_of(now) =~= all_of(before).push(pages.last()));
            assert(all_of(now) =~= pages);
        }
    } else {
        assert(all_of(sessions_of(pages)) =~= pages);
    }
}

/// The whole minutes before page `k` of a session.
pub open spec fn pause_before(session: Seq<Visit>, k: int) -> int {
    whole_minutes(session[k].visited_at, session[k - 1].visited_at)
}

/// The whole minutes between a session and the next.
pub open spec fn pause_between(session: Seq<Visit>, next: Seq<Visit>) -> int {
    whole_minutes(next[0].visited_at, session.last().visited_at)
}

/// No pause of a session is longer than half an hour.
pub open spec fn unbroken(session: Seq<Visit>) -> bool {
    forall|k: int| 0 < k < session.len() ==> #[trigger] pause_before(session, k) <= SESSION_GAP_MINS
}

/// The pause between session `i` and the one before it is longer than half an hour.
pub open spec fn parted(sessions: Seq<Seq<Visit>>, i: int) -> bool {
    pause_between(sessions[i - 1], sessions[i]) > SESSION_GAP_MINS
}

/// Within a session no pause is longer than half an hour, and between a session and the next
/// the pause is longer.
pub proof fn law_sessions_break_at_long_pauses(pages: Seq<Visit>)
    ensures
        forall|i: int| 0 <= i < sessions_of(pages).len() ==> unbroken(#[trigger] sessions_of(pages)[i]),
        forall|i: int| 0 < i < sessions_of(pages).len() ==> #[trigger] parted(sessions_of(pages), i),
        pages.len() > 0 ==> sessions_of(pages).len() > 0 && sessions_of(pages).last().len() > 0
            && sessions_of(pages).last().last() == pages.last(),
    decreases pages.len(),
{
    if pages.len() > 0 {
        let init = pages.drop_last();
        law_sessions_break_at_long_pauses(init);
        law_sessions_hold_every_page(init);
        let before = sessions_of(init);
        let now = sessions_of(pages);
        if breaks(pages) {
            assert(unbroken(seq![pages.last()]));
            assert forall|i: int| 0 < i < now.len() implies #[trigger] parted(now, i) by {
                if i < before.len() {
                    assert(parted(before, i));
                } else {
                    assert(now[i - 1] == before.last());
                }
            }
        } else {
            let longer = before.last().push(pages.last());
            assert(unbroken(before.last()));
            assert(unbroken(longer)) by {
                assert forall|k: int| 0 < k < longer.len() implies #[trigger] pause_before(longer, k)
                    <= SESSION_GAP_MINS by {
                    if k < before.last().len() {
                        assert(pause_before(before.last(), k) <= SESSION_GAP_MINS);
                    } else {
                        assert(longer[k - 1] == before.last().last());
                        assert(init.last() == pages[pages.len() - 2]);
                    }
                }
            }
            assert forall|i: int| 0 < i < now.len() implies #[trigger] parted(now, i) by {
                assert(parted(before, i));
                assert(now[i][0] == before[i][0]);
            }
        }
    }
}

/// The calendar holds the times of all pages of all sessions.
pub open spec fn all_times_valid(sessions: Seq<Seq<Visit>>) -> bool {
    forall|i: int| 0 <= i < sessions.len() ==> times_valid(#[trigger] sessions[i])
}

/// The sessions of pages with times that the calendar holds have such times too.
proof fn lemma_sessions_valid(pages: Seq<Visit>)
    requires
        times_valid(pages),
    ensures
        all_times_valid(sessions_of(pages)),
    decreases pages.len(),
{
    if pages.len() > 0 {
        let init = pages.drop_last();
        assert(times_valid(init)) by {
            assert forall|i: int| 0 <= i < init.len() implies (
            #[trigger] init[i]).visited_at.valid() by {
                assert(init[i] == pages[i]);
            }
        }
        lemma_sessions_valid(init);
        law_sessions_hold_every_page(init);
        let before = sessions_of(init);
        let now = sessions_of(pages);
        assert(pages[pages.len() - 1].visited_at.valid());
        assert forall|i: int| 0 <= i < now.len() implies times_valid(#[trigger] now[i]) by {
            if i < now.len() - 1 {
                assert(now[i] == before[i]);
            } else if !breaks(pages) {
                assert(times_valid(before[before.len() - 1]));
            }
        }
    }
}

/// Splits pages into sessions, in the order of time.
pub fn split_sessions(pages: Vec<PageForClustering>) -> (r: Vec<Vec<PageForClustering>>)
    requires
        times_valid(visits(pages@)),
    ensures
        session_visits(r@) == sessions_of(by_time(visits(pages@))),
        all_times_valid(session_visits(r@)),
{
    let ghost whole = visits(pages@);
    let mut keys: Vec<Key> = Vec::new();
    let mut i: usize = 0;
    while i < pages.len()
        invariant
            i <= pages@.len(),
            whole == visits(pages@),
            keys@.len() == i,
            forall|k: int| 0 <= k < i ==> (#[trigger] keys@[k])@ == oldest_first(whole)[k],
        decreases pages@.len() - i,
    {
        keys.push(Key::numbers(pages[i].visited_at.secs as i128, pages[i].visited_at.nanos as i128));
        i = i + 1;
    }
    assert(ranks(keys@) =~= oldest_first(whole));
    let ghost raw = pages@;
    let mut sorted: Vec<PageForClustering> = sort_by_keys(pages, &keys);
    proof {
        crate::order::lemma_stable_order(oldest_first(whole));
        let o = stable_order(oldest_first(whole));
        assert forall|k: int| 0 <= k < sorted@.len() implies #[trigger] visits(sorted@)[k]
            == by_time(whole)[k] by {
            assert(0 <= o[k] < whole.len());
        }
        assert(visits(sorted@) =~= by_time(whole));
        assert(times_valid(by_time(whole))) by {
            assert forall|k: int| 0 <= k < by_time(whole).len() implies (#[trigger] by_time(
                whole,
            )[k]).visited_at.valid() by {
                assert(0 <= o[k] < whole.len());
                assert(by_time(whole)[k] == whole[o[k]]);
            }
        }
    }
    let ghost line = by_time(whole);
    proof {
        lemma_sessions_valid(line);
    }
    reverse(&mut sorted);
    let mut sessions: Vec<Vec<PageForClustering>> = Vec::new();
    let mut current: Vec<PageForClustering> = Vec::new();
    let ghost mut n: int = 0;
    assert(session_visits(sessions@) =~= sessions_of(line.take(0)));
    while sorted.len() > 0
        invariant
            times_valid(line),
            0 <= n,
            n + sorted@.len() == line.len(),
            forall|k: int| 0 <= k < sorted@.len() ==> (#[trigger] sorted@[k])@ == line[line.len() - 1 - k],
            n == 0 ==> current@.len() == 0 && sessions@.len() == 0,
            n > 0 ==> current@.len() > 0 && current@.last()@ == line[n - 1] && session_visits(
                sessions@,
            ).push(visits(current@)) == sessions_of(line.take(n)),
        decreases sorted.len(),
    {
        let page: PageForClustering = sorted.pop().unwrap();
        assert(page@ == line[n]);
        let ghost now = line.take(n + 1);
        assert(now.drop_last() =~= line.take(n));
        assert(now.last() == page@);
        let ghost before = sessions@;
        let ghost cur = current@;
        if current.len() > 0 {
            assert(now[now.len() - 2] == line[n - 1]);
            assert(line[n].visited_at.valid() && line[n - 1].visited_at.valid());
            let gap: i64 = minutes_between(
                &page.visited_at,
                &current[current.len() - 1].visited_at,
            );
            if gap > SESSION_GAP_MINS {
                sessions.push(current);
                current = Vec::new();
                assert(session_visits(sessions@) =~= session_visits(before).push(visits(cur)));
            }
        } else {
            assert(sessions_of(line.take(0)) =~= Seq::<Seq<Visit>>::empty());
            assert(session_visits(sessions@) =~= Seq::<Seq<Visit>>::empty());
        }
        let ghost open = visits(current@);
        let ghost closed = session_visits(sessions@);
        current.push(page);
        assert(visits(current@) =~= open.push(line[n]));
        proof {
            if breaks(now) {
                assert(open =~= Seq::<Visit>::empty());
                assert(visits(current@) =~= seq![line[n]]);
                assert(closed == sessions_of(line.take(n)));
            } else {
                assert(open =~= visits(cur));
                assert(sessions_of(line.take(n)).drop_last() =~= closed);
                assert(sessions_of(line.take(n)).last() == open);
            }
            assert(closed.push(visits(current@)) =~= sessions_of(now));
            n = n + 1;
        }
    }
    assert(line.take(n) =~= line);
    if current.len() > 0 {
        let ghost before = session_visits(sessions@);
        let ghost cur = visits(current@);
        sessions.push(current);
        assert(session_visits(sessions@) =~= before.push(cur));
    } else {
        assert(session_visits(sessions@) =~= sessions_of(line));
    }
    sessions
}

/// Words that say nothing about a topic.
pub open spec fn is_stop_word(w: Seq<char>) -> bool {
    ||| w == "the"@
    ||| w == "a"@
    ||| w == "an"@
    ||| w == "of"@
    ||| w == "in"@
    ||| w == "to"@
    ||| w == "for"@
    ||| w == "with"@
    ||| w == "on"@
    ||| w == "at"@
    ||| w == "by"@
    ||| w == "from"@
    ||| w == "is"@
    ||| w == "was"@
    ||| w == "that"@
    ||| w == "this"@
    ||| w == "it"@
    ||| w == "as"@
    ||| w == "are"@
    ||| w == "be"@
    ||| w == "have"@
    ||| w == "has"@
    ||| w == "had"@
    ||| w == "do"@
    ||| w == "does"@
    ||| w == "did"@
    ||| w == "will"@
    ||| w == "would"@
    ||| w == "could"@
    ||| w == "should"@
    ||| w == "may"@
    ||| w == "might"@
    ||| w == "can"@
    ||| w == "and"@
    ||| w == "or"@
    ||| w == "but"@
    ||| w == "not"@
    ||| w == "no"@
    ||| w == "what"@
    ||| w == "how"@
    ||| w == "why"@
    ||| w == "when"@
    ||| w == "where"@
    ||| w == "who"@
    ||| w == "which"@
    ||| w == "more"@
    ||| w == "also"@
    ||| w == "new"@
    ||| w == "about"@
    ||| w == "its"@
    ||| w == "their"@
    ||| w == "your"@
    ||| w == "our"@
    ||| w == "my"@
    ||| w == "get"@
    ||| w == "use"@
    ||| w == "using"@
    ||| w == "used"@
    ||| w == "into"@
    ||| w == "than"@
    ||| w == "then"@
    ||| w == "so"@
    ||| w == "all"@
    ||| w == "one"@
    ||| w == "two"@
    ||| w == "just"@
    ||| w == "via"@
}

/// Whether a word says nothing about a topic.
fn stop_word(w: &str) -> (r: bool)
    ensures
        r == is_stop_word(w@),
{
    same_text(w, "the")
        || same_text(w, "a")
        || same_text(w, "an")
        || same_text(w, "of")
        || same_text(w, "in")
        || same_text(w, "to")
        || same_text(w, "for")
        || same_text(w, "with")
        || same_text(w, "on")
        || same_text(w, "at")
        || same_text(w, "by")
        || same_text(w, "from")
        || same_text(w, "is")
        || same_text(w, "was")
        || same_text(w, "that")
        || same_text(w, "this")
        || same_text(w, "it")
        || same_text(w, "as")
        || same_text(w, "are")
        || same_text(w, "be")
        || same_text(w, "have")
        || same_text(w, "has")
        || same_text(w, "had")
        || same_text(w, "do")
        || same_text(w, "does")
        || same_text(w, "did")
        || same_text(w, "will")
        || same_text(w, "would")
        || same_text(w, "could")
        || same_text(w, "should")
        || same_text(w, "may")
        || same_text(w, "might")
        || same_text(w, "can")
        || same_text(w, "and")
        || same_text(w, "or")
        || same_text(w, "but")
        || same_text(w, "not")
        || same_text(w, "no")
        || same_text(w, "what")
        || same_text(w, "how")
        || same_text(w, "why")
        || same_text(w, "when")
        || same_text(w, "where")
        || same_text(w, "who")
        || same_text(w, "which")
        || same_text(w, "more")
        || same_text(w, "also")
        || same_text(w, "new")
        || same_text(w, "about")
        || same_text(w, "its")
        || same_text(w, "their")
        || same_text(w, "your")
        || same_text(w, "our")
        || same_text(w, "my")
        || same_text(w, "get")
        || same_text(w, "use")
        || same_text(w, "using")
        || same_text(w, "used")
        || same_text(w, "into")
        || same_text(w, "than")
        || same_text(w, "then")
        || same_text(w, "so")
        || same_text(w, "all")
        || same_text(w, "one")
        || same_text(w, "two")
        || same_text(w, "just")
        || same_text(w, "via")
}

/// What `char::to_uppercase` gives, as a text.
pub uninterp spec fn uppercase_of(c: char) -> Seq<char>;

/// The uppercase form of a character, which may have more than one character.
///
/// Calls `char::to_uppercase`. Claimed: the result depends on the character alone.
#[verifier::external_body]
fn uppercase(c: char) -> (r: String)
    ensures
        r@ == uppercase_of(c),
{
    c.to_uppercase().to_string()
}

/// A word with its first character in uppercase.
pub open spec fn capitalized(s: Seq<char>) -> Seq<char> {
    if s.len() == 0 {
        Seq::empty()
    } else {
        uppercase_of(s[0]) + s.drop_first()
    }
}

/// A word with its first character in uppercase.
pub fn capitalize(s: &str) -> (r: String)
    ensures
        r@ == capitalized(s@),
{
    let n: usize = s.unicode_len();
    if n == 0 {
        let r: String = String::new();
        assert(r@ =~= capitalized(s@));
        return r;
    }
    let mut out: String = uppercase(s.get_char(0));
    out.append(s.substring_char(1, n));
    assert(out@ =~= capitalized(s@));
    out
}

/// The telling ones among a list of words, in lowercase: of at least three bytes, and no stop
/// words.
pub open spec fn telling(list: Seq<Seq<char>>) -> Seq<Seq<char>>
    decreases list.len(),
{
    if list.len() == 0 {
        Seq::empty()
    } else {
        let w = lowercase_of(list.last());
        if encode_utf8(list.last()).len() >= 3 && !is_stop_word(w) {
            telling(list.drop_last()).push(w)
        } else {
            telling(list.drop_last())
        }
    }
}

/// The telling words of a text.
pub open spec fn tokens(s: Seq<char>) -> Seq<Seq<char>> {
    telling(words(s, WordKind::Alphanumeric))
}

/// The telling words of a text.
pub fn tokenize(s: &str) -> (r: Vec<String>)
    ensures
        texts(r@) == tokens(s@),
{
    let list: Vec<String> = split_words(s, WordKind::Alphanumeric);
    let ghost all = texts(list@);
    let mut out: Vec<String> = Vec::new();
    let mut i: usize = 0;
    assert(texts(out@) =~= telling(all.take(0)));
    while i < list.len()
        invariant
            i <= list.len(),
            all == texts(list@),
            texts(out@) == telling(all.take(i as int)),
        decreases list.len() - i,
    {
        let ghost t = all.take(i as int + 1);
        assert(t.drop_last() =~= all.take(i as int));
        assert(t.last() == list@[i as int]@);
        let w: &str = list[i].as_str();
        if byte_len(w) >= 3 {
            let low: String = w.to_lowercase();
            if !stop_word(low.as_str()) {
                push_text(&mut out, low.as_str());
            }
        }
        i = i + 1;
    }
    assert(all.take(all.len() as int) =~= all);
    out
}

/// The telling words of all titles, each once per page.
pub open spec fn mentions(pages: Seq<Visit>) -> Seq<Seq<char>>
    decreases pages.len(),
{
    if pages.len() == 0 {
        Seq::empty()
    } else {
        mentions(pages.drop_last()) + distinct(tokens(pages.last().title))
    }
}

/// Those of a list of words that stand in `all` more than once.
pub open spec fn repeated(list: Seq<Seq<char>>, all: Seq<Seq<char>>) -> Seq<Seq<char>>
    decreases list.len(),
{
    if list.len() == 0 {
        Seq::empty()
    } else if count_of(all, list.last()) >= 2 {
        repeated(list.drop_last(), all).push(list.last())
    } else {
        repeated(list.drop_last(), all)
    }
}

/// The words that the titles of two or more pages have in common.
pub open spec fn shared_words(pages: Seq<Visit>) -> Seq<Seq<char>> {
    repeated(distinct(mentions(pages)), mentions(pages))
}

/// The sorting keys of words: those on the most pages first, and in the order of the alphabet
/// among those on equally many.
pub open spec fn widest_first(list: Seq<Seq<char>>, all: Seq<Seq<char>>) -> Seq<Rank> {
    Seq::new(
        list.len(),
        |i: int| Rank { major: -(count_of(all, list[i]) as int), minor: 0, text: codes(list[i]) },
    )
}

/// The host of a URL for display: none without a scheme, and without a leading `www.`.
pub open spec fn site_of(url: Seq<char>) -> Option<Seq<char>> {
    if has_prefix(url, "https://"@) {
        Some(site_in(url.skip("https://"@.len() as int)))
    } else if has_prefix(url, "http://"@) {
        Some(site_in(url.skip("http://"@.len() as int)))
    } else {
        None
    }
}

/// The host for display of what stands behind the scheme.
pub open spec fn site_in(rest: Seq<char>) -> Seq<char> {
    let host = without_port(rest.take(first_of(rest, "/?#"@)));
    if has_prefix(host, "www."@) {
        host.skip("www."@.len() as int)
    } else {
        host
    }
}

/// The hosts of pages, in order; pages without one are passed over.
pub open spec fn sites(pages: Seq<Visit>) -> Seq<Seq<char>>
    decreases pages.len(),
{
    if pages.len() == 0 {
        Seq::empty()
    } else {
        match site_of(pages.last().url) {
            Some(h) => sites(pages.drop_last()).push(h),
            None => sites(pages.drop_last()),
        }
    }
}

/// The label of a session: up to three words that its titles share, or its most frequent host.
pub open spec fn label_of(pages: Seq<Visit>) -> Seq<char> {
    let shared = shared_words(pages);
    let ordered = arranged(shared, widest_first(shared, mentions(pages)));
    if shared.len() > 0 {
        joined(
            Seq::new(
                if shared.len() < 3 {
                    shared.len()
                } else {
                    3
                },
                |i: int| capitalized(ordered[i]),
            ),
            " / "@,
        )
    } else {
        match most_frequent(sites(pages)) {
            Some(h) => h,
            None => "Browsing session"@,
        }
    }
}

/// The host of a URL for display.
pub fn host_from_url<'a>(url: &'a str) -> (r: Option<&'a str>)
    ensures
        match r {
            Some(h) => site_of(url@) == Some(h@),
            None => site_of(url@) is None,
        },
{
    let rest: &'a str = match strip_prefix(url, "https://") {
        Some(rest) => rest,
        None => match strip_prefix(url, "http://") {
            Some(rest) => rest,
            None => {
                return None;
            },
        },
    };
    let host: &'a str = strip_port(before_first(rest, "/?#"));
    match strip_prefix(host, "www.") {
        Some(h) => Some(h),
        None => Some(host),
    }
}

/// The hosts of pages, in order.
fn page_sites(pages: &Vec<PageForClustering>) -> (r: Vec<String>)
    ensures
        texts(r@) == sites(visits(pages@)),
{
    let ghost all = visits(pages@);
    let mut out: Vec<String> = Vec::new();
    let mut i: usize = 0;
    assert(texts(out@) =~= sites(all.take(0)));
    while i < pages.len()
        invariant
            i <= pages.len(),
            all == visits(pages@),
            texts(out@) == sites(all.take(i as int)),
        decreases pages.len() - i,
    {
        let ghost t = all.take(i as int + 1);
        assert(t.drop_last() =~= all.take(i as int));
        assert(t.last() == pages@[i as int]@);
        if let Some(h) = host_from_url(pages[i].url.as_str()) {
            push_text(&mut out, h);
        }
        i = i + 1;
    }
    assert(all.take(all.len() as int) =~= all);
    out
}

/// The telling words of all titles, each once per page.
fn page_mentions(pages: &Vec<PageForClustering>) -> (r: Vec<String>)
    ensures
        texts(r@) == mentions(visits(pages@)),
{
    let ghost all = visits(pages@);
    let mut out: Vec<String> = Vec::new();
    let mut i: usize = 0;
    assert(texts(out@) =~= mentions(all.take(0)));
    while i < pages.len()
        invariant
            i <= pages.len(),
            all == visits(pages@),
            texts(out@) == mentions(all.take(i as int)),
        decreases pages.len() - i,
    {
        let ghost t = all.take(i as int + 1);
        assert(t.drop_last() =~= all.take(i as int));
        assert(t.last() == pages@[i as int]@);
        let found: Vec<String> = tokenize(pages[i].title.as_str());
        let mut once: Vec<String> = distinct_texts(&found);
        let ghost a = out@;
        let ghost b = once@;
        out.append(&mut once);
        assert(texts(out@) =~= texts(a) + texts(b));
        i = i + 1;
    }
    assert(all.take(all.len() as int) =~= all);
    out
}

/// Those of a list of words that stand in `all` more than once.
fn repeated_texts(list: &Vec<String>, all: &Vec<String>) -> (r: Vec<String>)
    ensures
        texts(r@) == repeated(texts(list@), texts(all@)),
{
    let ghost l = texts(list@);
    let mut out: Vec<String> = Vec::new();
    let mut i: usize = 0;
    assert(texts(out@) =~= repeated(l.take(0), texts(all@)));
    while i < list.len()
        invariant
            i <= list.len(),
            l == texts(list@),
            texts(out@) == repeated(l.take(i as int), texts(all@)),
        decreases list.len() - i,
    {
        let ghost t = l.take(i as int + 1);
        assert(t.drop_last() =~= l.take(i as int));
        assert(t.last() == list@[i as int]@);
        if count(all, list[i].as_str()) >= 2 {
            push_text(&mut out, list[i].as_str());
        }
        i = i + 1;
    }
    assert(l.take(l.len() as int) =~= l);
    out
}

/// The words that titles have in common, and all their words: how many there are of each.
pub open spec fn overlap_of(pages: Seq<Visit>) -> (nat, nat) {
    (shared_words(pages).len(), distinct(mentions(pages)).len())
}

/// How many telling words the titles of two or more pages have in common, and how many telling
/// words there are. The score of a session without embeddings is the quotient, and zero where
/// there are no words.
pub fn title_overlap(pages: &Vec<PageForClustering>) -> (r: (usize, usize))
    ensures
        r.0 == overlap_of(visits(pages@)).0,
        r.1 == overlap_of(visits(pages@)).1,
{
    let all: Vec<String> = page_mentions(pages);
    let once: Vec<String> = distinct_texts(&all);
    let shared: Vec<String> = repeated_texts(&once, &all);
    assert(texts(shared@).len() == shared@.len());
    assert(texts(once@).len() == once@.len());
    (shared.len(), once.len())
}

/// The titles have no more words in common than they have words.
pub proof fn law_the_overlap_is_a_part(pages: Seq<Visit>)
    ensures
        overlap_of(pages).0 <= overlap_of(pages).1,
{
    lemma_repeated_shorter(distinct(mentions(pages)), mentions(pages));
}

proof fn lemma_repeated_shorter(list: Seq<Seq<char>>, all: Seq<Seq<char>>)
    ensures
        repeated(list, all).len() <= list.len(),
    decreases list.len(),
{
    if list.len() > 0 {
        lemma_repeated_shorter(list.drop_last(), all);
    }
}

/// The label of a session.
pub fn extract_label(pages: &Vec<PageForClustering>) -> (r: String)
    ensures
        r@ == label_of(visits(pages@)),
{
    let all: Vec<String> = page_mentions(pages);
    let once: Vec<String> = distinct_texts(&all);
    let shared: Vec<String> = repeated_texts(&once, &all);
    let ghost words_in_common = texts(shared@);
    assert(words_in_common == shared_words(visits(pages@)));
    if shared.len() == 0 {
        let hosts: Vec<String> = page_sites(pages);
        return match find_most_frequent(&hosts) {
            Some(h) => h,
            None => "Browsing session".to_owned(),
        };
    }
    let mut keys: Vec<Key> = Vec::new();
    let ghost wanted = widest_first(words_in_common, texts(all@));
    let mut i: usize = 0;
    while i < shared.len()
        invariant
            i <= shared.len(),
            words_in_common == texts(shared@),
            wanted == widest_first(words_in_common, texts(all@)),
            keys@.len() == i,
            forall|k: int| 0 <= k < i ==> (#[trigger] keys@[k])@ == wanted[k],
        decreases shared.len() - i,
    {
        let n: usize = count(&all, shared[i].as_str());
        keys.push(Key::number_and_text(-(n as i128), shared[i].as_str()));
        i = i + 1;
    }
    assert(ranks(keys@) =~= wanted);
    let ghost raw = shared@;
    let ordered: Vec<String> = sort_by_keys(shared, &keys);
    let ghost line = arranged(words_in_common, wanted);
    proof {
        crate::order::lemma_stable_order(wanted);
        assert forall|k: int| 0 <= k < ordered@.len() implies #[trigger] ordered@[k]@ == line[k] by {
            let o = stable_order(wanted);
            assert(0 <= o[k] < wanted.len());
        }
    }
    let mut top: Vec<String> = Vec::new();
    let mut j: usize = 0;
    while j < ordered.len() && j < 3
        invariant
            j <= ordered.len(),
            j <= 3,
            top@.len() == j,
            ordered@.len() == line.len(),
            forall|k: int| 0 <= k < ordered@.len() ==> #[trigger] ordered@[k]@ == line[k],
            forall|k: int| 0 <= k < j ==> (#[trigger] top@[k])@ == capitalized(line[k]),
        decreases ordered.len() - j,
    {
        let w: String = capitalize(ordered[j].as_str());
        top.push(w);
        j = j + 1;
    }
    assert(texts(top@) =~= Seq::new(j as nat, |i: int| capitalized(line[i])));
    join(&top, " / ")
}

/// The most frequent host of a session, and an empty text where it has none.
pub open spec fn dominant_of(pages: Seq<Visit>) -> Seq<char> {
    match most_frequent(sites(pages)) {
        Some(h) => h,
        None => Seq::empty(),
    }
}

/// The most frequent host of a session.
pub fn dominant_domain(pages: &Vec<PageForClustering>) -> (r: String)
    ensures
        r@ == dominant_of(visits(pages@)),
{
    let hosts: Vec<String> = page_sites(pages);
    match find_most_frequent(&hosts) {
        Some(h) => h,
        None => {
            let r: String = String::new();
            assert(r@ =~= Seq::empty());
            r
        },
    }
}

/// The first five hosts of a session, each once.
pub open spec fn domains_of(pages: Seq<Visit>) -> Seq<Seq<char>> {
    let all = distinct(sites(pages));
    if all.len() < 5 {
        all
    } else {
        all.take(5)
    }
}

/// The first five hosts of a session, each once.
pub fn extract_domains(pages: &Vec<PageForClustering>) -> (r: Vec<String>)
    ensures
        texts(r@) == domains_of(visits(pages@)),
{
    let hosts: Vec<String> = page_sites(pages);
    let mut r: Vec<String> = distinct_texts(&hosts);
    let ghost all = r@;
    assert(texts(all).len() == all.len());
    if r.len() > 5 {
        r.truncate(5);
        assert(texts(r@) =~= texts(all).take(5));
    } else if r.len() == 5 {
        assert(texts(r@) =~= texts(all).take(5));
    }
    r
}

/// How many of the pages have an embedding.
pub open spec fn embedded_count(pages: Seq<Visit>) -> nat
    decreases pages.len(),
{
    if pages.len() == 0 {
        0
    } else {
        embedded_count(pages.drop_last()) + if pages.last().embedding is Some {
            1nat
        } else {
            0
        }
    }
}

/// Whether a session is scored by its embeddings, of which that takes two, or by its titles.
pub fn scored_by_embeddings(pages: &Vec<PageForClustering>) -> (r: bool)
    ensures
        r == (embedded_count(visits(pages@)) >= 2),
{
    let ghost all = visits(pages@);
    let mut n: usize = 0;
    let mut i: usize = 0;
    while i < pages.len()
        invariant
            i <= pages.len(),
            all == visits(pages@),
            n <= i,
            n == embedded_count(all.take(i as int)),
        decreases pages.len() - i,
    {
        let ghost t = all.take(i as int + 1);
        assert(t.drop_last() =~= all.take(i as int));
        assert(t.last() == pages@[i as int]@);
        if pages[i].embedding.is_some() {
            n = n + 1;
        }
        i = i + 1;
    }
    assert(all.take(all.len() as int) =~= all);
    n >= 2
}

/// A point in time as a cluster shows it.
pub open spec fn shown_time(t: Timestamp) -> Seq<char> {
    written_time(t.secs as int, t.nanos as int, "%Y-%m-%dT%H:%M:%S"@)
}

/// The cluster of a session with a given score.
pub open spec fn topic_of(pages: Seq<Visit>, score: Score) -> Topic {
    Topic {
        label: label_of(pages),
        score,
        started_at: shown_time(pages[0].visited_at),
        ended_at: shown_time(pages.last().visited_at),
        duration_mins: whole_minutes(pages.last().visited_at, pages[0].visited_at),
        dominant_domain: dominant_of(pages),
        domains: domains_of(pages),
        pages: Seq::new(pages.len(), |i: int| (pages[i].url, pages[i].title)),
    }
}

/// The cluster of a session with a given score; none of an empty session.
pub fn score_session(pages: Vec<PageForClustering>, score: Score) -> (r: Option<Cluster>)
    requires
        times_valid(visits(pages@)),
    ensures
        match r {
            Some(c) => pages@.len() > 0 && c@ == topic_of(visits(pages@), score),
            None => pages@.len() == 0,
        },
{
    if pages.len() == 0 {
        return None;
    }
    let ghost all = visits(pages@);
    assert(all[0].visited_at.valid() && all.last().visited_at.valid());
    let first: Timestamp = pages[0].visited_at;
    let last: Timestamp = pages[pages.len() - 1].visited_at;
    let duration_mins: i64 = minutes_between(&last, &first);
    let label: String = extract_label(&pages);
    let dominant_domain: String = dominant_domain(&pages);
    let domains: Vec<String> = extract_domains(&pages);
    let mut shown: Vec<ClusterPage> = Vec::new();
    let mut i: usize = 0;
    while i < pages.len()
        invariant
            i <= pages.len(),
            all == visits(pages@),
            shown@.len() == i,
            forall|k: int| 0 <= k < i ==> (#[trigger] shown@[k]).url@ == all[k].url,
            forall|k: int| 0 <= k < i ==> (#[trigger] shown@[k]).title@ == all[k].title,
        decreases pages.len() - i,
    {
        shown.push(ClusterPage { url: pages[i].url.clone(), title: pages[i].title.clone() });
        i = i + 1;
    }
    let c = Cluster {
        label,
        score,
        started_at: write_as(&first, "%Y-%m-%dT%H:%M:%S"),
        ended_at: write_as(&last, "%Y-%m-%dT%H:%M:%S"),
        duration_mins,
        dominant_domain,
        domains,
        pages: shown,
    };
    assert(c@ =~= topic_of(all, score));
    Some(c)
}

/// The least score of a cluster.
pub open spec fn least_score() -> Score {
    Score { bits: MIN_SCORE_BITS }
}

/// A session is a cluster: it has three pages or more, reaches the least score, and its most
/// frequent host is not ignored.
pub open spec fn is_topic(pages: Seq<Visit>, score: Score, ignored: Seq<Seq<char>>) -> bool {
    &&& pages.len() >= MIN_PAGES
    &&& score.reaches(least_score())
    &&& !ignored.contains(dominant_of(pages))
}

/// The clusters among sessions, in the order of the sessions.
pub open spec fn topics(
    sessions: Seq<Seq<Visit>>,
    scores: Seq<Score>,
    ignored: Seq<Seq<char>>,
) -> Seq<Topic>
    decreases sessions.len(),
{
    if sessions.len() == 0 {
        Seq::empty()
    } else {
        let before = topics(sessions.drop_last(), scores, ignored);
        let at = sessions.len() - 1;
        if is_topic(sessions.last(), scores[at], ignored) {
            before.push(topic_of(sessions.last(), scores[at]))
        } else {
            before
        }
    }
}

/// The sorting keys of clusters: the highest score first.
pub open spec fn best_first(list: Seq<Topic>) -> Seq<Rank> {
    Seq::new(
        list.len(),
        |i: int| Rank { major: -list[i].score.key(), minor: 0, text: Seq::empty() },
    )
}

/// What the clusters of a list stand for.
pub open spec fn cluster_topics(list: Seq<Cluster>) -> Seq<Topic> {
    Seq::new(list.len(), |i: int| list[i]@)
}

/// The clusters among sessions with given scores, the most coherent first.
pub fn find_clusters(
    sessions: Vec<Vec<PageForClustering>>,
    scores: &Vec<Score>,
    ignored_domains: &Vec<String>,
) -> (r: Vec<Cluster>)
    requires
        sessions@.len() == scores@.len(),
        all_times_valid(session_visits(sessions@)),
    ensures
        cluster_topics(r@) == ({
            let found = topics(session_visits(sessions@), scores@, texts(ignored_domains@));
            arranged(found, best_first(found))
        }),
{
    let ghost all = session_visits(sessions@);
    let ghost ignored = texts(ignored_domains@);
    let total: usize = scores.len();
    let mut waiting: Vec<Vec<PageForClustering>> = sessions;
    reverse(&mut waiting);
    let mut found: Vec<Cluster> = Vec::new();
    let mut keys: Vec<Key> = Vec::new();
    let mut n: usize = 0;
    let least = Score { bits: MIN_SCORE_BITS };
    assert(cluster_topics(found@) =~= topics(all.take(0), scores@, ignored));
    while waiting.len() > 0
        invariant
            least == least_score(),
            all.len() == total,
            scores@.len() == total,
            all_times_valid(all),
            ignored == texts(ignored_domains@),
            n + waiting@.len() == total,
            forall|k: int|
                0 <= k < waiting@.len() ==> visits((#[trigger] waiting@[k])@) == all[total - 1 - k],
            cluster_topics(found@) == topics(all.take(n as int), scores@, ignored),
            keys@.len() == found@.len(),
            ranks(keys@) == best_first(cluster_topics(found@)),
        decreases waiting.len(),
    {
        let session: Vec<PageForClustering> = waiting.pop().unwrap();
        assert(visits(session@) == all[n as int]);
        let ghost t = all.take(n as int + 1);
        assert(t.drop_last() =~= all.take(n as int));
        assert(t.last() == visits(session@));
        assert(times_valid(all[n as int]));
        let score: Score = scores[n];
        let ghost before = found@;
        let ghost old_keys = keys@;
        let ghost pages = visits(session@);
        if session.len() >= MIN_PAGES {
            if let Some(c) = score_session(session, score) {
                if score.at_least(&least) && !list_contains(
                    ignored_domains,
                    c.dominant_domain.as_str(),
                ) {
                    keys.push(Key::number(-(score.order_key() as i128)));
                    found.push(c);
                    assert(cluster_topics(found@) =~= cluster_topics(before).push(
                        topic_of(pages, score),
                    ));
                    let ghost now = cluster_topics(found@);
                    assert forall|k: int| 0 <= k < keys@.len() implies #[trigger] ranks(keys@)[k]
                        == best_first(now)[k] by {
                        if k < before.len() {
                            assert(ranks(old_keys)[k] == best_first(cluster_topics(before))[k]);
                        }
                    }
                    assert(ranks(keys@) =~= best_first(now));
                }
            }
        }
        n = n + 1;
    }
    assert(all.take(n as int) =~= all);
    let ghost list = cluster_topics(found@);
    let r: Vec<Cluster> = sort_by_keys(found, &keys);
    proof {
        crate::order::lemma_stable_order(best_first(list));
        let o = stable_order(best_first(list));
        assert forall|k: int| 0 <= k < r@.len() implies #[trigger] cluster_topics(r@)[k] == arranged(
            list,
            best_first(list),
        )[k] by {
            assert(0 <= o[k] < list.len());
        }
        assert(cluster_topics(r@) =~= arranged(list, best_first(list)));
    }
    r
}

/// Every cluster that is found has three pages or more, reaches the least score, and is not
/// ignored.
pub proof fn law_only_topics_are_found(
    sessions: Seq<Seq<Visit>>,
    scores: Seq<Score>,
    ignored: Seq<Seq<char>>,
)
    ensures
        forall|i: int|
            0 <= i < topics(sessions, scores, ignored).len() ==> {
                let c = #[trigger] topics(sessions, scores, ignored)[i];
                c.pages.len() >= MIN_PAGES && c.score.reaches(least_score()) && !ignored.contains(
                    c.dominant_domain,
                )
            },
    decreases sessions.len(),
{
    if sessions.len() > 0 {
        law_only_topics_are_found(sessions.drop_last(), scores, ignored);
        let before = topics(sessions.drop_last(), scores, ignored);
        let now = topics(sessions, scores, ignored);
        assert forall|i: int| 0 <= i < now.len() implies {
            let c = #[trigger] now[i];
            c.pages.len() >= MIN_PAGES && c.score.reaches(least_score()) && !ignored.contains(
                c.dominant_domain,
            )
        } by {
            if i < before.len() {
                assert(now[i] == before[i]);
            }
        }
    }
}

/// The most coherent sessions come first.
pub proof fn law_coherent_sessions_lead(found: Seq<Topic>)
    ensures
        forall|i: int, j: int|
            0 <= i < j < found.len() ==> (#[trigger] arranged(found, best_first(found))[i]).score.key()
                >= (#[trigger] arranged(found, best_first(found))[j]).score.key(),
{
    lemma_arranged_by(
        found,
        best_first(found),
        |t: Topic| Rank { major: -t.score.key(), minor: 0, text: Seq::empty() },
    );
}

/// The clusters that are found, in the order of their sessions, are those of all sessions with
/// three pages or more whose score is at least 0.35 and whose most frequent host is not ignored.
pub proof fn law_every_topic_is_found(
    sessions: Seq<Seq<Visit>>,
    scores: Seq<Score>,
    ignored: Seq<Seq<char>>,
)
    ensures
        picked(
            sessions.len(),
            topics(sessions, scores, ignored),
            |i: int|
                sessions[i].len() >= 3 && scores[i].reaches(Score { bits: 0x3eb3_3333 })
                    && !ignored.contains(dominant_of(sessions[i])),
            |i: int| topic_of(sessions[i], scores[i]),
        ),
    decreases sessions.len(),
{
    let chosen = |i: int|
        sessions[i].len() >= 3 && scores[i].reaches(Score { bits: 0x3eb3_3333 })
            && !ignored.contains(dominant_of(sessions[i]));
    let gives = |i: int| topic_of(sessions[i], scores[i]);
    if sessions.len() == 0 {
        lemma_picked_none(chosen, gives);
    } else {
        let init = sessions.drop_last();
        law_every_topic_is_found(init, scores, ignored);
        lemma_picked_one_more(
            init.len(),
            topics(init, scores, ignored),
            |i: int|
                init[i].len() >= 3 && scores[i].reaches(Score { bits: 0x3eb3_3333 })
                    && !ignored.contains(dominant_of(init[i])),
            |i: int| topic_of(init[i], scores[i]),
            topics(sessions, scores, ignored),
            chosen,
            gives,
        );
    }
}

/// A list holds a cluster with all pages of a session, in their order, and with its score.
pub open spec fn holds_session(list: Seq<Topic>, session: Seq<Visit>, score: Score) -> bool {
    exists|k: int|
        0 <= k < list.len() && shows_session(#[trigger] list[k], session) && list[k].score == score
}

/// A cluster shows all pages of a session, in their order.
pub open spec fn shows_session(topic: Topic, session: Seq<Visit>) -> bool {
    &&& topic.pages.len() == session.len()
    &&& forall|i: int|
        0 <= i < session.len() ==> #[trigger] topic.pages[i] == (session[i].url, session[i].title)
}

/// A cluster shows one of several sessions, of three pages or more, with its score.
pub open spec fn is_of_session(
    topic: Topic,
    sessions: Seq<Seq<Visit>>,
    scores: Seq<Score>,
) -> bool {
    exists|i: int|
        0 <= i < sessions.len() && (#[trigger] sessions[i]).len() >= 3 && shows_session(
            topic,
            sessions[i],
        ) && topic.score == scores[i]
}

/// No session that keeps to a topic is lost: each that has three pages or more, a score of at
/// least 0.35, and a most frequent host that is not ignored is among the clusters, with all its
/// pages. No cluster is of anything else, and no session gives two.
pub proof fn law_no_topic_is_lost(
    sessions: Seq<Seq<Visit>>,
    scores: Seq<Score>,
    ignored: Seq<Seq<char>>,
)
    ensures
        ({
            let found = topics(sessions, scores, ignored);
            let list = arranged(found, best_first(found));
            &&& list.len() <= sessions.len()
            &&& forall|i: int|
                0 <= i < sessions.len() && (#[trigger] sessions[i]).len() >= 3 && scores[i].reaches(
                    Score { bits: 0x3eb3_3333 },
                ) && !ignored.contains(dominant_of(sessions[i])) ==> holds_session(
                    list,
                    sessions[i],
                    scores[i],
                )
            &&& forall|k: int|
                0 <= k < list.len() ==> is_of_session(#[trigger] list[k], sessions, scores)
        }),
{
    let found = topics(sessions, scores, ignored);
    let list = arranged(found, best_first(found));
    let chosen = |i: int|
        sessions[i].len() >= 3 && scores[i].reaches(Score { bits: 0x3eb3_3333 })
            && !ignored.contains(dominant_of(sessions[i]));
    let gives = |i: int| topic_of(sessions[i], scores[i]);
    law_every_topic_is_found(sessions, scores, ignored);
    lemma_picked(sessions.len(), found, chosen, gives);
    law_sorting_keeps_every_entry(found, best_first(found));
    assert forall|i: int|
        0 <= i < sessions.len() && (#[trigger] sessions[i]).len() >= 3 && scores[i].reaches(
            Score { bits: 0x3eb3_3333 },
        ) && !ignored.contains(dominant_of(sessions[i])) implies holds_session(
        list,
        sessions[i],
        scores[i],
    ) by {
        assert(chosen(i));
        assert(found.contains(gives(i)));
        assert(list.contains(gives(i)));
        let k = choose|k: int| 0 <= k < list.len() && list[k] == gives(i);
        assert(shows_session(list[k], sessions[i]));
    }
    assert forall|k: int| 0 <= k < list.len() implies is_of_session(
        #[trigger] list[k],
        sessions,
        scores,
    ) by {
        assert(list.contains(list[k]));
        assert(found.contains(list[k]));
        let a = choose|a: int| 0 <= a < found.len() && found[a] == list[k];
        assert(given_by(sessions.len(), found[a], chosen, gives));
        let i = choose|i: int| 0 <= i < sessions.len() && #[trigger] chosen(i) && found[a] == gives(i);
        assert(shows_session(list[k], sessions[i]));
    }
}

/// A cluster begins with the first page of its session and ends with the last, and takes the
/// whole minutes between them. It has the label of its session and its hosts.
pub proof fn law_a_topic_spans_its_session(pages: Seq<Visit>, score: Score)
    requires
        pages.len() > 0,
    ensures
        ({
            let topic = topic_of(pages, score);
            let first = pages[0].visited_at;
            let last = pages[pages.len() - 1].visited_at;
            &&& shows_session(topic, pages)
            &&& topic.score == score
            &&& topic.started_at == written_time(
                first.secs as int,
                first.nanos as int,
                "%Y-%m-%dT%H:%M:%S"@,
            )
            &&& topic.ended_at == written_time(
                last.secs as int,
                last.nanos as int,
                "%Y-%m-%dT%H:%M:%S"@,
            )
            &&& topic.duration_mins == whole_minutes(last, first)
            &&& topic.label == label_of(pages)
            &&& topic.dominant_domain == dominant_of(pages)
            &&& topic.domains == domains_of(pages)
        }),
{
}

/// Pages are split by pauses of more than thirty whole minutes, in the order of time: no page is
/// before an earlier one, and pages of the same time keep their order.
pub proof fn law_pages_are_put_in_the_order_of_time(pages: Seq<Visit>)
    ensures
        by_time(pages).len() == pages.len(),
        forall|x: Visit| #[trigger] by_time(pages).contains(x) <==> pages.contains(x),
        forall|i: int, j: int|
            0 <= i < j < pages.len() ==> ({
                let a = (#[trigger] by_time(pages)[i]).visited_at;
                let b = (#[trigger] by_time(pages)[j]).visited_at;
                a.secs < b.secs || (a.secs == b.secs && a.nanos <= b.nanos)
            }),
        forall|i: int|
            0 <= i < sessions_of(by_time(pages)).len() ==> forall|k: int|
                0 < k < (#[trigger] sessions_of(by_time(pages))[i]).len() ==> whole_minutes(
                    #[trigger] sessions_of(by_time(pages))[i][k].visited_at,
                    sessions_of(by_time(pages))[i][k - 1].visited_at,
                ) <= 30,
        forall|i: int|
            0 < i < sessions_of(by_time(pages)).len() ==> whole_minutes(
                (#[trigger] sessions_of(by_time(pages))[i])[0].visited_at,
                sessions_of(by_time(pages))[i - 1].last().visited_at,
            ) > 30,
{
    law_sorting_keeps_every_entry(pages, oldest_first(pages));
    lemma_arranged_by(
        pages,
        oldest_first(pages),
        |v: Visit|
            Rank {
                major: v.visited_at.secs as int,
                minor: v.visited_at.nanos as int,
                text: Seq::empty(),
            },
    );
    let list = by_time(pages);
    let sessions = sessions_of(list);
    law_sessions_break_at_long_pauses(list);
    assert forall|i: int| 0 <= i < sessions.len() implies forall|k: int|
        0 < k < (#[trigger] sessions[i]).len() ==> whole_minutes(
            #[trigger] sessions[i][k].visited_at,
            sessions[i][k - 1].visited_at,
        ) <= 30 by {
        assert(unbroken(sessions[i]));
        assert forall|k: int| 0 < k < sessions[i].len() implies whole_minutes(
            #[trigger] sessions[i][k].visited_at,
            sessions[i][k - 1].visited_at,
        ) <= 30 by {
            assert(pause_before(sessions[i], k) <= SESSION_GAP_MINS);
        }
    }
    assert forall|i: int| 0 < i < sessions.len() implies whole_minutes(
        (#[trigger] sessions[i])[0].visited_at,
        sessions[i - 1].last().visited_at,
    ) > 30 by {
        assert(parted(sessions, i));
    }
}

/// The words that say nothing about a topic are these.
pub proof fn law_the_stop_words(w: Seq<char>)
    ensures
        is_stop_word(w) <==> seq![
            "the"@, "a"@, "an"@, "of"@, "in"@, "to"@, "for"@, "with"@, "on"@, "at"@, "by"@, "from"@,
            "is"@, "was"@, "that"@, "this"@, "it"@, "as"@, "are"@, "be"@, "have"@, "has"@, "had"@,
            "do"@, "does"@, "did"@, "will"@, "would"@, "could"@, "should"@, "may"@, "might"@, "can"@,
            "and"@, "or"@, "but"@, "not"@, "no"@, "what"@, "how"@, "why"@, "when"@, "where"@, "who"@,
            "which"@, "more"@, "also"@, "new"@, "about"@, "its"@, "their"@, "your"@, "our"@, "my"@,
            "get"@, "use"@, "using"@, "used"@, "into"@, "than"@, "then"@, "so"@, "all"@, "one"@,
            "two"@, "just"@, "via"@,
        ].contains(w),
{
    let list = seq![
        "the"@, "a"@, "an"@, "of"@, "in"@, "to"@, "for"@, "with"@, "on"@, "at"@, "by"@, "from"@,
        "is"@, "was"@, "that"@, "this"@, "it"@, "as"@, "are"@, "be"@, "have"@, "has"@, "had"@,
        "do"@, "does"@, "did"@, "will"@, "would"@, "could"@, "should"@, "may"@, "might"@, "can"@,
        "and"@, "or"@, "but"@, "not"@, "no"@, "what"@, "how"@, "why"@, "when"@, "where"@, "who"@,
        "which"@, "more"@, "also"@, "new"@, "about"@, "its"@, "their"@, "your"@, "our"@, "my"@,
        "get"@, "use"@, "using"@, "used"@, "into"@, "than"@, "then"@, "so"@, "all"@, "one"@,
        "two"@, "just"@, "via"@,
    ];
    assert(forall|i: int| 0 <= i < list.len() ==> is_stop_word(#[trigger] list[i]));
    if is_stop_word(w) {
        assert(list[0] == w || list[1] == w || list[2] == w || list[3] == w || list[4] == w || list[5] == w || list[6] == w || list[7] == w || list[8] == w || list[9] == w || list[10] == w || list[11] == w || list[12] == w || list[13] == w || list[14] == w || list[15] == w || list[16] == w || list[17] == w || list[18] == w || list[19] == w || list[20] == w || list[21] == w || list[22] == w || list[23] == w || list[24] == w || list[25] == w || list[26] == w || list[27] == w || list[28] == w || list[29] == w || list[30] == w || list[31] == w || list[32] == w || list[33] == w || list[34] == w || list[35] == w || list[36] == w || list[37] == w || list[38] == w || list[39] == w || list[40] == w || list[41] == w || list[42] == w || list[43] == w || list[44] == w || list[45] == w || list[46] == w || list[47] == w || list[48] == w || list[49] == w || list[50] == w || list[51] == w || list[52] == w || list[53] == w || list[54] == w || list[55] == w || list[56] == w || list[57] == w || list[58] == w || list[59] == w || list[60] == w || list[61] == w || list[62] == w || list[63] == w || list[64] == w || list[65] == w || list[66] == w);
    }
    if list.contains(w) {
        let i = choose|i: int| 0 <= i < list.len() && list[i] == w;
        assert(is_stop_word(list[i]));
    }
}

/// The telling words of a text are all its words of three bytes or more that are no stop words,
/// in lowercase and in their order.
pub proof fn law_telling_words_are_all_there(s: Seq<char>)
    ensures
        ({
            let list = words(s, WordKind::Alphanumeric);
            picked(
                list.len(),
                tokens(s),
                |i: int| encode_utf8(list[i]).len() >= 3 && !is_stop_word(lowercase_of(list[i])),
                |i: int| lowercase_of(list[i]),
            )
        }),
{
    lemma_telling(words(s, WordKind::Alphanumeric));
}

proof fn lemma_telling(list: Seq<Seq<char>>)
    ensures
        picked(
            list.len(),
            telling(list),
            |i: int| encode_utf8(list[i]).len() >= 3 && !is_stop_word(lowercase_of(list[i])),
            |i: int| lowercase_of(list[i]),
        ),
    decreases list.len(),
{
    let chosen = |i: int|
        encode_utf8(list[i]).len() >= 3 && !is_stop_word(lowercase_of(list[i]));
    let gives = |i: int| lowercase_of(list[i]);
    if list.len() == 0 {
        lemma_picked_none(chosen, gives);
    } else {
        let init = list.drop_last();
        lemma_telling(init);
        lemma_picked_one_more(
            init.len(),
            telling(init),
            |i: int| encode_utf8(init[i]).len() >= 3 && !is_stop_word(lowercase_of(init[i])),
            |i: int| lowercase_of(init[i]),
            telling(list),
            chosen,
            gives,
        );
    }
}

/// How many pages have a telling word in their title.
pub open spec fn pages_with(pages: Seq<Visit>, w: Seq<char>) -> nat {
    pages.filter(|p: Visit| tokens(p.title).contains(w)).len()
}

proof fn lemma_count_parts(a: Seq<Seq<char>>, b: Seq<Seq<char>>, w: Seq<char>)
    ensures
        count_of(a + b, w) == count_of(a, w) + count_of(b, w),
    decreases b.len(),
{
    if b.len() == 0 {
        assert(a + b =~= a);
    } else {
        assert((a + b).drop_last() =~= a + b.drop_last());
        lemma_count_parts(a, b.drop_last(), w);
    }
}

proof fn lemma_count_once(list: Seq<Seq<char>>, w: Seq<char>)
    requires
        list.no_duplicates(),
    ensures
        count_of(list, w) == if list.contains(w) {
            1nat
        } else {
            0
        },
    decreases list.len(),
{
    if list.len() > 0 {
        let init = list.drop_last();
        lemma_count_once(init, w);
        if init.contains(w) {
            let k = choose|k: int| 0 <= k < init.len() && init[k] == w;
            assert(list[k] == w);
            assert(list[k] != list[list.len() - 1]);
        }
        if list.contains(w) && list.last() != w {
            let k = choose|k: int| 0 <= k < list.len() && list[k] == w;
            assert(init[k] == w);
        }
        if list.last() == w {
            assert(list[list.len() - 1] == w);
        }
    }
}

proof fn lemma_mentions(pages: Seq<Visit>, w: Seq<char>)
    ensures
        count_of(mentions(pages), w) == pages_with(pages, w),
    decreases pages.len(),
{
    reveal(Seq::filter);
    if pages.len() > 0 {
        let init = pages.drop_last();
        lemma_mentions(init, w);
        let once = distinct(tokens(pages.last().title));
        law_distinct_holds_each_text_once(tokens(pages.last().title));
        lemma_count_parts(mentions(init), once, w);
        lemma_count_once(once, w);
        assert(once.contains(w) <==> tokens(pages.last().title).contains(w));
    }
}

proof fn lemma_repeated(list: Seq<Seq<char>>, all: Seq<Seq<char>>)
    ensures
        forall|w: Seq<char>|
            #[trigger] repeated(list, all).contains(w) <==> list.contains(w) && count_of(all, w) >= 2,
    decreases list.len(),
{
    if list.len() > 0 {
        let init = list.drop_last();
        lemma_repeated(init, all);
        let before = repeated(init, all);
        let now = repeated(list, all);
        assert forall|w: Seq<char>| #[trigger] now.contains(w) <==> list.contains(w) && count_of(
            all,
            w,
        ) >= 2 by {
            if now.contains(w) {
                let k = choose|k: int| 0 <= k < now.len() && now[k] == w;
                if k < before.len() {
                    assert(before[k] == w);
                    assert(before.contains(w));
                    let i = choose|i: int| 0 <= i < init.len() && init[i] == w;
                    assert(list[i] == w);
                } else {
                    assert(list[list.len() - 1] == w);
                }
            }
            if list.contains(w) && count_of(all, w) >= 2 {
                let i = choose|i: int| 0 <= i < list.len() && list[i] == w;
                if i < init.len() {
                    assert(init[i] == w);
                    assert(before.contains(w));
                    let k = choose|k: int| 0 <= k < before.len() && before[k] == w;
                    assert(now[k] == w);
                } else {
                    assert(now[now.len() - 1] == w);
                }
            }
        }
    }
}

proof fn lemma_count_of_missing(s: Seq<Seq<char>>, w: Seq<char>)
    ensures
        count_of(s, w) > 0 <==> s.contains(w),
    decreases s.len(),
{
    if s.len() > 0 {
        lemma_count_of_missing(s.drop_last(), w);
        if s.contains(w) && s.last() != w {
            let k = choose|k: int| 0 <= k < s.len() && s[k] == w;
            assert(s.drop_last()[k] == w);
        }
        if s.drop_last().contains(w) {
            let k = choose|k: int| 0 <= k < s.drop_last().len() && s.drop_last()[k] == w;
            assert(s[k] == w);
        }
        if s.last() == w {
            assert(s[s.len() - 1] == w);
        }
    }
}

/// The words that titles share are those in the titles of two or more pages.
pub proof fn law_shared_words_are_on_two_pages(pages: Seq<Visit>)
    ensures
        forall|w: Seq<char>| #[trigger] shared_words(pages).contains(w) <==> pages_with(pages, w) >= 2,
{
    let all = mentions(pages);
    law_distinct_holds_each_text_once(all);
    lemma_repeated(distinct(all), all);
    assert forall|w: Seq<char>| #[trigger] shared_words(pages).contains(w) <==> pages_with(pages, w)
        >= 2 by {
        lemma_mentions(pages, w);
        lemma_count_of_missing(all, w);
    }
}

/// A session is labelled with up to three words that its titles share, those on the most pages
/// first. Where titles share no word, its label is its most frequent host.
pub proof fn law_a_label_names_the_widest_words(pages: Seq<Visit>)
    ensures
        ({
            let top = arranged(shared_words(pages), widest_first(shared_words(pages), mentions(pages)));
            let n = if top.len() < 3 {
                top.len()
            } else {
                3
            };
            &&& top.len() > 0 ==> label_of(pages) == joined(
                top.take(n as int).map_values(|w: Seq<char>| capitalized(w)),
                " / "@,
            )
            &&& forall|w: Seq<char>| #[trigger] top.contains(w) <==> pages_with(pages, w) >= 2
            &&& forall|i: int, j: int|
                0 <= i < j < top.len() ==> ({
                    let a = pages_with(pages, #[trigger] top[i]);
                    let b = pages_with(pages, #[trigger] top[j]);
                    a > b || (a == b && !text_before(top[j], top[i]))
                })
            &&& top.len() == 0 && sites(pages).len() > 0 ==> Some(label_of(pages)) == most_frequent(
                sites(pages),
            )
            &&& top.len() == 0 && sites(pages).len() == 0 ==> label_of(pages)
                == "Browsing session"@
        }),
{
    let shared = shared_words(pages);
    let all = mentions(pages);
    let keys = widest_first(shared, all);
    let top = arranged(shared, keys);
    law_shared_words_are_on_two_pages(pages);
    law_sorting_keeps_every_entry(shared, keys);
    lemma_arranged_by(
        shared,
        keys,
        |w: Seq<char>| Rank { major: -(count_of(all, w) as int), minor: 0, text: codes(w) },
    );
    assert forall|i: int, j: int| 0 <= i < j < top.len() implies ({
        let a = pages_with(pages, #[trigger] top[i]);
        let b = pages_with(pages, #[trigger] top[j]);
        a > b || (a == b && !text_before(top[j], top[i]))
    }) by {
        lemma_mentions(pages, top[i]);
        lemma_mentions(pages, top[j]);
    }
    if top.len() > 0 {
        let n: nat = if top.len() < 3 {
            top.len()
        } else {
            3
        };
        assert(top.take(n as int).map_values(|w: Seq<char>| capitalized(w)) =~= Seq::new(
            n,
            |i: int| capitalized(top[i]),
        ));
    }
}

/// The hosts of pages are those of all pages that have one, in their order.
pub proof fn law_every_page_counts_with_its_host(pages: Seq<Visit>)
    ensures
        picked(
            pages.len(),
            sites(pages),
            |i: int| site_of(pages[i].url) is Some,
            |i: int| site_of(pages[i].url)->0,
        ),
    decreases pages.len(),
{
    let chosen = |i: int| site_of(pages[i].url) is Some;
    let gives = |i: int| site_of(pages[i].url)->0;
    if pages.len() == 0 {
        lemma_picked_none(chosen, gives);
    } else {
        let init = pages.drop_last();
        law_every_page_counts_with_its_host(init);
        lemma_picked_one_more(
            init.len(),
            sites(init),
            |i: int| site_of(init[i].url) is Some,
            |i: int| site_of(init[i].url)->0,
            sites(pages),
            chosen,
            gives,
        );
    }
}

/// The most frequent host of a session is one of its hosts, and none stands there more often; the
/// hosts that are shown are the first five, each once.
pub proof fn law_the_hosts_of_a_session(pages: Seq<Visit>)
    ensures
        sites(pages).len() == 0 ==> dominant_of(pages).len() == 0,
        sites(pages).len() > 0 ==> sites(pages).contains(dominant_of(pages)),
        forall|h: Seq<char>|
            #[trigger] sites(pages).contains(h) ==> count_of(sites(pages), h) <= count_of(
                sites(pages),
                dominant_of(pages),
            ),
        domains_of(pages).len() <= 5,
        domains_of(pages).no_duplicates(),
        domains_of(pages).is_prefix_of(distinct(sites(pages))),
        domains_of(pages).len() < 5 ==> forall|h: Seq<char>|
            sites(pages).contains(h) ==> #[trigger] domains_of(pages).contains(h),
{
    let all = sites(pages);
    law_distinct_holds_each_text_once(all);
    if all.len() > 0 {
        law_the_most_frequent_text(all);
    }
}

/// The host of a page for display is what stands between its scheme and the first slash, question
/// mark or number sign, without the port and without a leading `www.`.
pub proof fn law_the_host_for_display(host: Seq<char>, rest: Seq<char>)
    requires
        !host.contains('/') && !host.contains('?') && !host.contains('#') && !host.contains(':'),
        !has_prefix(host, "www."@),
        rest.len() > 0 ==> rest[0] == '/' || rest[0] == '?' || rest[0] == '#',
    ensures
        site_of("https://"@ + host + rest) == Some(host),
        site_of("http://"@ + host + rest) == Some(host),
        site_of("https://www."@ + host + rest) == Some(host),
        site_of("http://www."@ + host + rest) == Some(host),
{
    reveal_strlit("https://");
    reveal_strlit("http://");
    reveal_strlit("https://www.");
    reveal_strlit("http://www.");
    reveal_strlit("www.");
    let www = "www."@ + host;
    lemma_site_in(host, rest);
    assert forall|c: char| !host.contains(c) && c != 'w' && c != '.' implies !#[trigger] www.contains(
        c,
    ) by {
        if www.contains(c) {
            let k = choose|k: int| 0 <= k < www.len() && www[k] == c;
            if k >= 4 {
                assert(host[k - 4] == c);
            }
        }
    }
    lemma_site_in(www, rest);
    let a = "https://"@ + host + rest;
    let b = "http://"@ + host + rest;
    let c = "https://www."@ + host + rest;
    let d = "http://www."@ + host + rest;
    assert(a.subrange(0, 8) =~= "https://"@);
    assert(a.skip(8) =~= host + rest);
    assert(b.subrange(0, 7) =~= "http://"@);
    assert(b.skip(7) =~= host + rest);
    assert(c.subrange(0, 8) =~= "https://"@);
    assert(c.skip(8) =~= www + rest);
    assert(d.subrange(0, 7) =~= "http://"@);
    assert(d.skip(7) =~= www + rest);
    if has_prefix(b, "https://"@) {
        assert(b.subrange(0, 8)[4] == 's');
        assert(b[4] == ':');
    }
    if has_prefix(d, "https://"@) {
        assert(d.subrange(0, 8)[4] == 's');
        assert(d[4] == ':');
    }
    assert(www.subrange(0, 4) =~= "www."@);
    assert(www.skip(4) =~= host);
}

proof fn lemma_site_in(host: Seq<char>, rest: Seq<char>)
    requires
        !host.contains('/') && !host.contains('?') && !host.contains('#') && !host.contains(':'),
        rest.len() > 0 ==> rest[0] == '/' || rest[0] == '?' || rest[0] == '#',
    ensures
        site_in(host + rest) == if has_prefix(host, "www."@) {
            host.skip("www."@.len() as int)
        } else {
            host
        },
{
    reveal_strlit("/?#");
    let s = host + rest;
    let set = "/?#"@;
    assert(set =~= seq!['/', '?', '#']);
    assert forall|i: int| 0 <= i < host.len() implies !set.contains(#[trigger] s[i]) by {
        assert(s[i] == host[i]);
        assert(host.contains(host[i]));
        if set.contains(s[i]) {
            let k = choose|k: int| 0 <= k < set.len() && set[k] == s[i];
            assert(k == 0 || k == 1 || k == 2);
        }
    }
    if rest.len() > 0 {
        assert(s[host.len() as int] == rest[0]);
        assert(set[0] == '/' && set[1] == '?' && set[2] == '#');
        assert(set.contains(rest[0]));
    }
    lemma_first_of_unique(s, set, host.len() as int);
    assert(s.take(host.len() as int) =~= host);
    lemma_last_at(host, ':');
    let i = last_at(host, ':');
    if i >= 0 {
        assert(host[i] == ':');
    }
}

/// A word is capitalized in its first character, and the others stay.
pub proof fn law_only_the_first_character_is_capitalized(first: char, rest: Seq<char>)
    ensures
        capitalized(seq![first] + rest) == uppercase_of(first) + rest,
        capitalized(Seq::empty()).len() == 0,
{
    assert((seq![first] + rest).drop_first() =~= rest);
}

/// The overlap of titles is how many of their telling words stand in two titles or more, each
/// word counted once, of how many there are, each counted once.
pub proof fn law_the_overlap_counts_each_word_once(pages: Seq<Visit>)
    ensures
        overlap_of(pages).0 == shared_words(pages).len(),
        shared_words(pages).no_duplicates(),
        overlap_of(pages).1 == distinct(mentions(pages)).len(),
        forall|w: Seq<char>|
            #[trigger] distinct(mentions(pages)).contains(w) <==> pages_with(pages, w) > 0,
{
    let all = mentions(pages);
    law_distinct_holds_each_text_once(all);
    lemma_repeated_differ(distinct(all), all);
    assert forall|w: Seq<char>|
        #[trigger] distinct(all).contains(w) <==> pages_with(pages, w) > 0 by {
        lemma_mentions(pages, w);
        lemma_count_of_missing(all, w);
    }
}

proof fn lemma_repeated_differ(list: Seq<Seq<char>>, all: Seq<Seq<char>>)
    requires
        list.no_duplicates(),
    ensures
        repeated(list, all).no_duplicates(),
    decreases list.len(),
{
    if list.len() > 0 {
        let init = list.drop_last();
        lemma_repeated_differ(init, all);
        lemma_repeated(init, all);
        let before = repeated(init, all);
        if before.contains(list.last()) {
            assert(init.contains(list.last()));
            let k = choose|k: int| 0 <= k < init.len() && init[k] == list.last();
            assert(list[k] != list[list.len() - 1]);
        }
        let now = repeated(list, all);
        assert forall|i: int, j: int| 0 <= i < now.len() && 0 <= j < now.len() && i != j implies
            now[i] != now[j] by {
            if i < before.len() {
                assert(before.contains(before[i]));
            }
            if j < before.len() {
                assert(before.contains(before[j]));
            }
        }
    }
}

/// A session is scored by its embeddings where two pages or more have one.
pub proof fn law_embeddings_are_counted(pages: Seq<Visit>)
    ensures
        embedded_count(pages) == pages.filter(|p: Visit| p.embedding is Some).len(),
    decreases pages.len(),
{
    reveal(Seq::filter);
    if pages.len() > 0 {
        law_embeddings_are_counted(pages.drop_last());
    }
}

} // verus!
