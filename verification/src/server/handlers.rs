//! What is made of requests.

use vstd::prelude::*;
use vstd::string::*;

use crate::browser::HistoryItem;
use crate::config::{any_matches, matches_any};
use crate::fetch::recipe::{looks_like_recipe, recipe_like, url_host, web_host};
use crate::index::query::{entries, Entry, PageEntry};
use crate::index::search::{
    counts, founds, holds, is_found, weeklies, Found, SearchResult, Weekly, WeeklyEntry,
};
use crate::lists::{
    distinct, distinct_texts, law_distinct_holds_each_text_once, lemma_picked_none,
    lemma_picked_one_more, list_contains, picked, push_text,
};
use crate::order::{
    arranged, first_n, is_part, keep, kept, lemma_arranged_by, lemma_arranged_map,
    lemma_kept_and_changed, ranks, sort_by_keys, take_first, Key, Rank,
};
use crate::rag::context::{template_or_default, SYSTEM_PROMPT_TEMPLATE};
use crate::server::{ImportItem, SyncStatus, WeeklyGroup, WeeklyPage, FETCH_MULTIPLIER};
use crate::session_log::{LogEntry, LogKind, SessionLog};
use crate::sync::{Line, LogLine};
use crate::text::{
    contains_text, decimal, has_prefix, lemma_stands_between, lemma_stands_within, opt, pairs,
    push_decimal, same_text, starts_with, texts, trim, trimmed,
};

verus! {

/// How many pages of the history are read so that enough are left when banned ones go.
pub fn recent_fetch_limit(limit: u32) -> (r: u32)
    requires
        limit * FETCH_MULTIPLIER <= u32::MAX,
    ensures
        r == limit * FETCH_MULTIPLIER,
{
    limit * FETCH_MULTIPLIER
}

/// Which pages of a history no ban matches, neither one of the index nor one of the settings.
pub open spec fn allowed_flags(
    items: Seq<HistoryItem>,
    banned_hosts: Seq<Seq<char>>,
    ban: Seq<Seq<char>>,
) -> Seq<bool> {
    items.map_values(
        |item: HistoryItem| !any_matches(item.url@, banned_hosts) && !any_matches(item.url@, ban),
    )
}

/// The pages of a history that are shown: those that no ban matches, up to a limit.
pub fn filter_recent(
    items: Vec<HistoryItem>,
    banned_hosts: &Vec<String>,
    ban: &Vec<String>,
    limit: u32,
) -> (r: Vec<HistoryItem>)
    ensures
        r@ == first_n(
            kept(items@, allowed_flags(items@, texts(banned_hosts@), texts(ban@))),
            limit as nat,
        ),
{
    let mut flags: Vec<bool> = Vec::new();
    let ghost wanted = allowed_flags(items@, texts(banned_hosts@), texts(ban@));
    let mut i: usize = 0;
    while i < items.len()
        invariant
            i <= items@.len(),
            wanted == allowed_flags(items@, texts(banned_hosts@), texts(ban@)),
            flags@.len() == i,
            forall|k: int| 0 <= k < i ==> #[trigger] flags@[k] == wanted[k],
        decreases items@.len() - i,
    {
        let url: &str = items[i].url.as_str();
        flags.push(!matches_any(url, banned_hosts) && !matches_any(url, ban));
        i = i + 1;
    }
    assert(flags@ =~= wanted);
    take_first(keep(items, &flags), limit as usize)
}

/// No page that is shown is banned.
pub proof fn law_shown_pages_are_not_banned(
    items: Seq<HistoryItem>,
    banned_hosts: Seq<Seq<char>>,
    ban: Seq<Seq<char>>,
    limit: u32,
)
    ensures
        ({
            let shown = first_n(
                kept(items, allowed_flags(items, banned_hosts, ban)),
                limit as nat,
            );
            &&& shown.len() <= limit
            &&& forall|i: int|
                0 <= i < shown.len() ==> !any_matches((#[trigger] shown[i]).url@, banned_hosts)
                    && !any_matches(shown[i].url@, ban)
        }),
{
    crate::order::lemma_kept(
        items,
        allowed_flags(items, banned_hosts, ban),
        |item: HistoryItem| !any_matches(item.url@, banned_hosts) && !any_matches(item.url@, ban),
    );
    let all = kept(items, allowed_flags(items, banned_hosts, ban));
    let shown = first_n(all, limit as nat);
    assert forall|i: int| 0 <= i < shown.len() implies !any_matches(
        (#[trigger] shown[i]).url@,
        banned_hosts,
    ) && !any_matches(shown[i].url@, ban) by {
        assert(shown[i] == all[i]);
    }
}

/// The pages of the week of one host.
#[verifier::ext_equal]
pub struct Group {
    pub host: Seq<char>,
    pub pages: Seq<Weekly>,
    pub is_new: bool,
    pub prior_count: nat,
}

/// What a page of a group stands for.
pub open spec fn group_page(host: Seq<char>, p: WeeklyPage) -> Weekly {
    Weekly {
        url: p.url@,
        title: p.title@,
        snippet: p.snippet@,
        host,
        last_visit_at: opt(p.last_visit_at),
    }
}

impl View for WeeklyGroup {
    type V = Group;

    open spec fn view(&self) -> Group {
        Group {
            host: self.host@,
            pages: self.pages@.map_values(|p: WeeklyPage| group_page(self.host@, p)),
            is_new: self.is_new,
            prior_count: self.prior_count as nat,
        }
    }
}

/// The hosts of pages of the week.
pub open spec fn week_hosts(list: Seq<Weekly>) -> Seq<Seq<char>> {
    list.map_values(|w: Weekly| w.host)
}

/// Those pages of the week that are of a host.
pub open spec fn of_host(list: Seq<Weekly>, host: Seq<char>) -> Seq<Weekly>
    decreases list.len(),
{
    if list.len() == 0 {
        Seq::empty()
    } else if list.last().host == host {
        of_host(list.drop_last(), host).push(list.last())
    } else {
        of_host(list.drop_last(), host)
    }
}

/// The count under a host, and zero where there is none.
pub open spec fn count_under(list: Seq<(Seq<char>, nat)>, host: Seq<char>) -> nat
    decreases list.len(),
{
    if list.len() == 0 {
        0
    } else if list[0].0 == host {
        list[0].1
    } else {
        count_under(list.drop_first(), host)
    }
}

/// The group of a host: it is new where the time before had none of its pages.
pub open spec fn group_of(list: Seq<Weekly>, prior: Seq<(Seq<char>, nat)>, host: Seq<char>) -> Group {
    Group {
        host,
        pages: of_host(list, host),
        is_new: count_under(prior, host) == 0,
        prior_count: count_under(prior, host),
    }
}

/// The groups of the pages of a week, in the order in which their hosts occur.
pub open spec fn groups_of(list: Seq<Weekly>, prior: Seq<(Seq<char>, nat)>) -> Seq<Group> {
    distinct(week_hosts(list)).map_values(|h: Seq<char>| group_of(list, prior, h))
}

/// The sorting keys of groups: new hosts first, then those with the most pages.
pub open spec fn group_keys(list: Seq<Group>) -> Seq<Rank> {
    list.map_values(
        |g: Group|
            Rank {
                major: if g.is_new {
                    0
                } else {
                    1
                },
                minor: -(g.pages.len() as int),
                text: Seq::empty(),
            },
    )
}

/// What groups stand for.
pub open spec fn grouped(list: Seq<WeeklyGroup>) -> Seq<Group> {
    list.map_values(|g: WeeklyGroup| g@)
}

/// The count under a host.
fn find_count(list: &Vec<(String, usize)>, host: &str) -> (r: usize)
    ensures
        r == count_under(counts(list@), host@),
{
    let ghost all = counts(list@);
    let mut i: usize = 0;
    assert(all.skip(0) =~= all);
    while i < list.len()
        invariant
            i <= list@.len(),
            all == counts(list@),
            count_under(all, host@) == count_under(all.skip(i as int), host@),
        decreases list@.len() - i,
    {
        let ghost rest = all.skip(i as int);
        assert(rest[0] == (list@[i as int].0@, list@[i as int].1 as nat));
        assert(rest.drop_first() =~= all.skip(i as int + 1));
        if same_text(list[i].0.as_str(), host) {
            return list[i].1;
        }
        i = i + 1;
    }
    0
}

/// The group of a host.
fn make_group(list: &Vec<WeeklyEntry>, prior: &Vec<(String, usize)>, host: &str) -> (r: WeeklyGroup)
    ensures
        r@ == group_of(weeklies(list@), counts(prior@), host@),
{
    let ghost all = weeklies(list@);
    let ghost f = |p: WeeklyPage| group_page(host@, p);
    let mut pages: Vec<WeeklyPage> = Vec::new();
    let mut i: usize = 0;
    assert(pages@.map_values(f) =~= of_host(all.take(0), host@));
    while i < list.len()
        invariant
            i <= list@.len(),
            all == weeklies(list@),
            f == (|p: WeeklyPage| group_page(host@, p)),
            pages@.map_values(f) == of_host(all.take(i as int), host@),
        decreases list@.len() - i,
    {
        let ghost t = all.take(i as int + 1);
        assert(t.drop_last() =~= all.take(i as int));
        assert(t.last() == list@[i as int]@);
        let e: &WeeklyEntry = &list[i];
        if same_text(e.host.as_str(), host) {
            let last_visit_at: Option<String> = match &e.last_visit_at {
                Some(s) => Some(s.clone()),
                None => None,
            };
            let p = WeeklyPage {
                url: e.url.clone(),
                title: e.title.clone(),
                snippet: e.snippet.clone(),
                last_visit_at,
            };
            let ghost before = pages@;
            pages.push(p);
            assert(group_page(host@, p) == e@);
            assert(pages@.map_values(f) =~= before.map_values(f).push(e@));
        }
        i = i + 1;
    }
    assert(all.take(all.len() as int) =~= all);
    let prior_count: usize = find_count(prior, host);
    let r = WeeklyGroup { host: host.to_owned(), pages, is_new: prior_count == 0, prior_count };
    assert(r@.pages =~= pages@.map_values(f));
    assert(r@ =~= group_of(all, counts(prior@), host@));
    r
}

/// The pages of a week by host: hosts that are new this week first, then those with the most
/// pages.
pub fn weekly_groups(list: &Vec<WeeklyEntry>, prior: &Vec<(String, usize)>) -> (r: Vec<WeeklyGroup>)
    ensures
        grouped(r@) == ({
            let groups = groups_of(weeklies(list@), counts(prior@));
            arranged(groups, group_keys(groups))
        }),
{
    let ghost all = weeklies(list@);
    let mut hosts: Vec<String> = Vec::new();
    let mut i: usize = 0;
    while i < list.len()
        invariant
            i <= list@.len(),
            all == weeklies(list@),
            hosts@.len() == i,
            forall|k: int| 0 <= k < i ==> (#[trigger] hosts@[k])@ == all[k].host,
        decreases list@.len() - i,
    {
        hosts.push(list[i].host.clone());
        i = i + 1;
    }
    assert(texts(hosts@) =~= week_hosts(all));
    let once: Vec<String> = distinct_texts(&hosts);
    let ghost groups = groups_of(all, counts(prior@));
    let mut found: Vec<WeeklyGroup> = Vec::new();
    let mut keys: Vec<Key> = Vec::new();
    let mut j: usize = 0;
    while j < once.len()
        invariant
            j <= once@.len(),
            all == weeklies(list@),
            texts(once@) == distinct(week_hosts(all)),
            groups == groups_of(all, counts(prior@)),
            found@.len() == j,
            keys@.len() == j,
            forall|k: int| 0 <= k < j ==> (#[trigger] found@[k])@ == groups[k],
            forall|k: int| 0 <= k < j ==> (#[trigger] keys@[k])@ == group_keys(groups)[k],
        decreases once@.len() - j,
    {
        assert(texts(once@)[j as int] == once@[j as int]@);
        let g: WeeklyGroup = make_group(list, prior, once[j].as_str());
        assert(g@ == groups[j as int]);
        assert(g@.pages.len() == g.pages@.len());
        let first: i128 = if g.is_new {
            0
        } else {
            1
        };
        keys.push(Key::numbers(first, -(g.pages.len() as i128)));
        found.push(g);
        j = j + 1;
    }
    assert(grouped(found@) =~= groups);
    assert(ranks(keys@) =~= group_keys(groups));
    let ghost f1 = found@;
    let r: Vec<WeeklyGroup> = sort_by_keys(found, &keys);
    proof {
        lemma_arranged_map(f1, group_keys(groups), |g: WeeklyGroup| g@);
    }
    r
}

/// What a search for completions looks for; nothing where the text is blank.
pub fn autocomplete_query(q: &str) -> (r: Option<String>)
    ensures
        opt(r) == if trimmed(q@).len() == 0 {
            None
        } else {
            Some(trimmed(q@))
        },
{
    let s: &str = trim(q);
    if s.unicode_len() == 0 {
        None
    } else {
        Some(s.to_owned())
    }
}

/// The page with this URL among those that were found, the last of several.
pub open spec fn hit_for(list: Seq<Found>, url: Seq<char>) -> Option<Found>
    decreases list.len(),
{
    if list.len() == 0 {
        None
    } else if list.last().url == url {
        Some(list.last())
    } else {
        hit_for(list.drop_last(), url)
    }
}

/// Of pages found by meaning, those that were found by words too, as those were found.
pub open spec fn found_by_both(urls: Seq<Seq<char>>, by_words: Seq<Found>) -> Seq<Found>
    decreases urls.len(),
{
    if urls.len() == 0 {
        Seq::empty()
    } else {
        match hit_for(by_words, urls.last()) {
            Some(f) => found_by_both(urls.drop_last(), by_words).push(f),
            None => found_by_both(urls.drop_last(), by_words),
        }
    }
}

/// Of pages found by meaning, those that were not found by words.
pub open spec fn found_by_meaning_only(urls: Seq<Seq<char>>, by_words: Seq<Found>) -> Seq<Seq<char>>
    decreases urls.len(),
{
    if urls.len() == 0 {
        Seq::empty()
    } else {
        match hit_for(by_words, urls.last()) {
            Some(_) => found_by_meaning_only(urls.drop_last(), by_words),
            None => found_by_meaning_only(urls.drop_last(), by_words).push(urls.last()),
        }
    }
}

/// Results with those of a list taken in whose URL is not among them yet.
pub open spec fn taken_in(results: Seq<Found>, list: Seq<Found>) -> Seq<Found>
    decreases list.len(),
{
    if list.len() == 0 {
        results
    } else {
        let before = taken_in(results, list.drop_last());
        if is_found(before, list.last().url) {
            before
        } else {
            before.push(list.last())
        }
    }
}

/// All that a search finds: the pages found by meaning and by words lead, then come the pages
/// found by meaning alone, which were looked up, and those found by words alone, each URL once.
pub open spec fn all_results(
    by_meaning: Seq<Seq<char>>,
    by_words: Seq<Found>,
    looked_up: Seq<Found>,
) -> Seq<Found> {
    taken_in(taken_in(found_by_both(distinct(by_meaning), by_words), looked_up), by_words)
}

/// The results of a search, up to a limit.
pub open spec fn search_results(
    by_meaning: Seq<Seq<char>>,
    by_words: Seq<Found>,
    looked_up: Seq<Found>,
    limit: u32,
) -> Seq<Found> {
    first_n(all_results(by_meaning, by_words, looked_up), limit as nat)
}

/// The page with this URL among those that were found.
fn find_hit(list: &Vec<SearchResult>, url: &str) -> (r: Option<SearchResult>)
    ensures
        match r {
            Some(f) => hit_for(founds(list@), url@) == Some(f@),
            None => hit_for(founds(list@), url@) is None,
        },
{
    let ghost all = founds(list@);
    let mut i: usize = list.len();
    assert(all.take(all.len() as int) =~= all);
    while i > 0
        invariant
            i <= list@.len(),
            all == founds(list@),
            hit_for(all, url@) == hit_for(all.take(i as int), url@),
        decreases i,
    {
        let ghost t = all.take(i as int);
        assert(t.last() == list@[i - 1]@);
        assert(t.drop_last() =~= all.take(i - 1));
        if same_text(list[i - 1].url.as_str(), url) {
            return Some(list[i - 1].duplicate());
        }
        i = i - 1;
    }
    None
}

/// Of pages found by meaning, those that were not found by words: they are looked up.
pub fn urls_to_look_up(by_meaning: &Vec<String>, by_words: &Vec<SearchResult>) -> (r: Vec<String>)
    ensures
        texts(r@) == found_by_meaning_only(distinct(texts(by_meaning@)), founds(by_words@)),
{
    let once: Vec<String> = distinct_texts(by_meaning);
    let ghost all = texts(once@);
    let mut out: Vec<String> = Vec::new();
    let mut i: usize = 0;
    assert(texts(out@) =~= found_by_meaning_only(all.take(0), founds(by_words@)));
    while i < once.len()
        invariant
            i <= once@.len(),
            all == texts(once@),
            texts(out@) == found_by_meaning_only(all.take(i as int), founds(by_words@)),
        decreases once@.len() - i,
    {
        let ghost t = all.take(i as int + 1);
        assert(t.drop_last() =~= all.take(i as int));
        assert(t.last() == once@[i as int]@);
        if find_hit(by_words, once[i].as_str()).is_none() {
            push_text(&mut out, once[i].as_str());
        }
        i = i + 1;
    }
    assert(all.take(all.len() as int) =~= all);
    out
}

/// Takes in those of a list whose URL is not there yet.
fn take_in(results: &mut Vec<SearchResult>, list: &Vec<SearchResult>)
    ensures
        founds(final(results)@) == taken_in(founds(old(results)@), founds(list@)),
{
    let ghost first = founds(results@);
    let ghost all = founds(list@);
    let mut i: usize = 0;
    assert(all.take(0) =~= Seq::empty());
    while i < list.len()
        invariant
            i <= list@.len(),
            all == founds(list@),
            founds(results@) == taken_in(first, all.take(i as int)),
        decreases list@.len() - i,
    {
        let ghost t = all.take(i as int + 1);
        assert(t.drop_last() =~= all.take(i as int));
        assert(t.last() == list@[i as int]@);
        if !holds(results, list[i].url.as_str()) {
            let ghost before = results@;
            let f: SearchResult = list[i].duplicate();
            results.push(f);
            assert(founds(results@) =~= founds(before).push(f@));
        }
        i = i + 1;
    }
    assert(all.take(all.len() as int) =~= all);
}

/// The results of a search.
pub fn merge_results(
    by_meaning: &Vec<String>,
    by_words: &Vec<SearchResult>,
    looked_up: &Vec<SearchResult>,
    limit: u32,
) -> (r: Vec<SearchResult>)
    ensures
        founds(r@) == search_results(
            texts(by_meaning@),
            founds(by_words@),
            founds(looked_up@),
            limit,
        ),
{
    let once: Vec<String> = distinct_texts(by_meaning);
    let ghost urls = texts(once@);
    let mut results: Vec<SearchResult> = Vec::new();
    let mut i: usize = 0;
    assert(founds(results@) =~= found_by_both(urls.take(0), founds(by_words@)));
    while i < once.len()
        invariant
            i <= once@.len(),
            urls == texts(once@),
            founds(results@) == found_by_both(urls.take(i as int), founds(by_words@)),
        decreases once@.len() - i,
    {
        let ghost t = urls.take(i as int + 1);
        assert(t.drop_last() =~= urls.take(i as int));
        assert(t.last() == once@[i as int]@);
        if let Some(f) = find_hit(by_words, once[i].as_str()) {
            let ghost before = results@;
            results.push(f);
            assert(founds(results@) =~= founds(before).push(f@));
        }
        i = i + 1;
    }
    assert(urls.take(urls.len() as int) =~= urls);
    take_in(&mut results, looked_up);
    take_in(&mut results, by_words);
    let ghost whole = results@;
    let r: Vec<SearchResult> = take_first(results, limit as usize);
    assert(founds(r@) =~= first_n(founds(whole), limit as nat));
    r
}

/// The line that logs a search.
pub fn search_line(q: &str, results: usize) -> (r: LogLine)
    ensures
        r@ == (Line {
            kind: LogKind::Search,
            message: q@,
            detail: Some(decimal(results as nat) + " result(s)"@),
        }),
{
    let mut detail: String = String::new();
    push_decimal(&mut detail, results as u64);
    assert(detail@ =~= decimal(results as nat));
    detail.append(" result(s)");
    LogLine { kind: LogKind::Search, message: q.to_owned(), detail: Some(detail) }
}

/// The starred pages as a list in Markdown.
pub open spec fn markdown_lines(list: Seq<Entry>) -> Seq<char>
    decreases list.len(),
{
    if list.len() == 0 {
        "# Starred Pages\n\n"@
    } else {
        let e = list.last();
        markdown_lines(list.drop_last()) + "- ["@ + (if e.title.len() == 0 {
            e.url
        } else {
            e.title
        }) + "]("@ + e.url + ")\n"@
    }
}

/// The starred pages as a list in Markdown.
pub fn export_markdown(pages: &Vec<PageEntry>) -> (r: String)
    ensures
        r@ == markdown_lines(entries(pages@)),
{
    let ghost all = entries(pages@);
    let mut out: String = "# Starred Pages\n\n".to_owned();
    let mut i: usize = 0;
    assert(all.take(0) =~= Seq::empty());
    while i < pages.len()
        invariant
            i <= pages@.len(),
            all == entries(pages@),
            out@ == markdown_lines(all.take(i as int)),
        decreases pages@.len() - i,
    {
        let ghost t = all.take(i as int + 1);
        assert(t.drop_last() =~= all.take(i as int));
        assert(t.last() == pages@[i as int]@);
        let p: &PageEntry = &pages[i];
        out.append("- [");
        if p.title.as_str().unicode_len() == 0 {
            out.append(p.url.as_str());
        } else {
            out.append(p.title.as_str());
        }
        out.append("](");
        out.append(p.url.as_str());
        out.append(")\n");
        i = i + 1;
    }
    assert(all.take(all.len() as int) =~= all);
    out
}

/// The instructions that the settings page shows: the configured ones, or those that hold
/// otherwise.
pub fn shown_system_prompt(configured: &Option<String>) -> (r: String)
    ensures
        r@ == template_or_default(*configured),
{
    match configured {
        Some(s) => s.clone(),
        None => SYSTEM_PROMPT_TEMPLATE.to_owned(),
    }
}

/// The entries of the log that are asked for: those of a kind, or all where none is named.
pub fn log_entries(log: &SessionLog, kind: &Option<String>) -> (r: Vec<LogEntry>)
    ensures
        match kind {
            Some(k) => k@.len() > 0 ==> {
                &&& forall|l: LogKind| #[trigger] l.name() == k@ ==> r@ == log.entries(l)
                &&& (forall|l: LogKind| #[trigger] l.name() != k@) ==> r@.len() == 0
            },
            None => true,
        },
        (kind is None || kind.unwrap()@.len() == 0) ==> r@ == arranged(
            log.all(),
            crate::session_log::newest_first(log.all()),
        ),
{
    match kind {
        Some(k) => {
            if k.as_str().unicode_len() > 0 {
                log.get_by_kind(k.as_str())
            } else {
                log.get_all()
            }
        },
        None => log.get_all(),
    }
}

/// How synchronisation stands: a time of zero or less means that there was none yet.
pub fn sync_status(last_sync_at: i64, paused: bool, interval_mins: u64) -> (r: SyncStatus)
    ensures
        r.paused == paused,
        r.interval_mins == interval_mins,
        r.last_sync_at == if last_sync_at > 0 {
            Some(last_sync_at)
        } else {
            None
        },
{
    SyncStatus {
        paused,
        interval_mins,
        last_sync_at: if last_sync_at > 0 {
            Some(last_sync_at)
        } else {
            None
        },
    }
}

/// Whether a URL may be opened outside: only web pages may.
pub fn may_open(url: &str) -> (r: bool)
    ensures
        r == (has_prefix(url@, "http://"@) || has_prefix(url@, "https://"@)),
{
    starts_with(url, "http://") || starts_with(url, "https://")
}

/// The name of a thread without blanks around it; a blank one is refused.
pub fn thread_name(name: &str) -> (r: Option<String>)
    ensures
        opt(r) == if trimmed(name@).len() == 0 {
            None
        } else {
            Some(trimmed(name@))
        },
{
    autocomplete_query(name)
}

/// Whether a page can be put in a thread: it needs a URL.
pub fn thread_url(url: &str) -> (r: bool)
    ensures
        r == (url@.len() > 0),
{
    url.unicode_len() > 0
}

/// Links to star, with their titles.
pub fn import_pairs(items: &Vec<ImportItem>) -> (r: Vec<(String, String)>)
    ensures
        pairs(r@) == items@.map_values(|i: ImportItem| (i.url@, i.title@)),
{
    let mut out: Vec<(String, String)> = Vec::new();
    let mut i: usize = 0;
    while i < items.len()
        invariant
            i <= items@.len(),
            out@.len() == i,
            forall|k: int|
                0 <= k < i ==> (#[trigger] out@[k]).0@ == items@[k].url@ && out@[k].1@
                    == items@[k].title@,
        decreases items@.len() - i,
    {
        out.push((items[i].url.clone(), items[i].title.clone()));
        i = i + 1;
    }
    assert(pairs(out@) =~= items@.map_values(|i: ImportItem| (i.url@, i.title@)));
    out
}

/// The text that is embedded for a page.
pub fn embedding_text(title: &str, body: &str) -> (r: String)
    ensures
        r@ == title@ + " "@ + body@,
{
    let mut out: String = title.to_owned();
    out.append(" ");
    out.append(body);
    out
}

/// The text of a page that was asked for: that of the first page, and nothing where there is
/// none.
pub fn first_body(bodies: &Vec<(String, String)>) -> (r: String)
    ensures
        r@ == if bodies@.len() > 0 {
            bodies@[0].1@
        } else {
            ""@
        },
{
    if bodies.len() > 0 {
        bodies[0].1.clone()
    } else {
        "".to_owned()
    }
}

/// What is done about the recipe of a page that was fetched again.
#[derive(Debug, Clone, Copy, PartialEq, Eq, Structural)]
pub enum RecipeStep {
    /// Nothing: the host is passed over.
    Skip,
    /// The recipe in its structured data is stored.
    Store,
    /// The page is marked for the model to read.
    Pending,
    /// The page is marked as having none.
    Absent,
}

/// What is done about the recipe of a page that was fetched again: its host may be one that is
/// passed over, its structured data may hold a recipe, or its words may look like one.
pub open spec fn recipe_choice(
    url: Seq<char>,
    skip_hosts: Seq<Seq<char>>,
    has_recipe: bool,
    title: Seq<char>,
    body: Seq<char>,
) -> RecipeStep {
    let skipped = match web_host(url) {
        Some(h) => skip_hosts.contains(h),
        None => false,
    };
    if skipped {
        RecipeStep::Skip
    } else if has_recipe {
        RecipeStep::Store
    } else if recipe_like(title, body) {
        RecipeStep::Pending
    } else {
        RecipeStep::Absent
    }
}

/// What is done about the recipe of a page that was fetched again.
pub fn recipe_step(
    url: &str,
    skip_hosts: &Vec<String>,
    has_recipe: bool,
    title: &str,
    body: &str,
) -> (r: RecipeStep)
    ensures
        r == recipe_choice(url@, texts(skip_hosts@), has_recipe, title@, body@),
{
    let skipped: bool = match url_host(url) {
        Some(h) => list_contains(skip_hosts, h),
        None => false,
    };
    if skipped {
        RecipeStep::Skip
    } else if has_recipe {
        RecipeStep::Store
    } else if looks_like_recipe(title, body) {
        RecipeStep::Pending
    } else {
        RecipeStep::Absent
    }
}

/// Which recipes are listed: fifty from the first on where nothing else is asked for.
pub fn recipe_range(limit: Option<u32>, offset: Option<u32>) -> (r: (u32, u32))
    ensures
        r.0 == match limit {
            Some(n) => n,
            None => 50,
        },
        r.1 == match offset {
            Some(n) => n,
            None => 0,
        },
{
    (
        match limit {
            Some(n) => n,
            None => 50,
        },
        match offset {
            Some(n) => n,
            None => 0,
        },
    )
}

/// The line that logs how many pages are queued for their recipes.
pub fn recipe_scan_line(queued: u64) -> (r: LogLine)
    ensures
        r@ == (Line {
            kind: LogKind::Sync,
            message: "Recipe scan: "@ + decimal(queued as nat)
                + " page(s) queued for LLM extraction"@,
            detail: None,
        }),
{
    let mut message: String = "Recipe scan: ".to_owned();
    push_decimal(&mut message, queued);
    message.append(" page(s) queued for LLM extraction");
    LogLine { kind: LogKind::Sync, message, detail: None }
}

/// The line that logs how many pages of a host are to be fetched again.
pub fn requeue_line(host: &str, queued: u64) -> (r: LogLine)
    ensures
        r@ == (Line {
            kind: LogKind::Sync,
            message: "Re-queue "@ + host@ + ": "@ + decimal(queued as nat)
                + " page(s) marked for re-fetch"@,
            detail: None,
        }),
{
    let mut message: String = "Re-queue ".to_owned();
    message.append(host);
    message.append(": ");
    push_decimal(&mut message, queued);
    message.append(" page(s) marked for re-fetch");
    LogLine { kind: LogKind::Sync, message, detail: None }
}

/// Hosts that are new come first, and among hosts that are new, or are not, those with the most
/// pages. Each host of the week has its group.
pub proof fn law_new_hosts_lead(list: Seq<Weekly>, prior: Seq<(Seq<char>, nat)>)
    ensures
        ({
            let groups = groups_of(list, prior);
            let shown = arranged(groups, group_keys(groups));
            &&& shown.len() == distinct(week_hosts(list)).len()
            &&& forall|i: int, j: int|
                0 <= i < j < shown.len() ==> {
                    let (a, b) = (#[trigger] shown[i], #[trigger] shown[j]);
                    &&& b.is_new ==> a.is_new
                    &&& a.is_new == b.is_new ==> a.pages.len() >= b.pages.len()
                }
        }),
{
    let groups = groups_of(list, prior);
    lemma_arranged_by(
        groups,
        group_keys(groups),
        |g: Group|
            Rank {
                major: if g.is_new {
                    0
                } else {
                    1
                },
                minor: -(g.pages.len() as int),
                text: Seq::empty(),
            },
    );
}

/// No URL stands twice in a list.
pub open spec fn urls_differ(list: Seq<Found>) -> bool {
    forall|i: int, j: int|
        0 <= i < j < list.len() ==> (#[trigger] list[i]).url != (#[trigger] list[j]).url
}

proof fn lemma_found_by_both(urls: Seq<Seq<char>>, by_words: Seq<Found>)
    requires
        urls.no_duplicates(),
    ensures
        urls_differ(found_by_both(urls, by_words)),
        forall|i: int|
            0 <= i < found_by_both(urls, by_words).len() ==> urls.contains(
                (#[trigger] found_by_both(urls, by_words)[i]).url,
            ),
    decreases urls.len(),
{
    if urls.len() > 0 {
        let init = urls.drop_last();
        lemma_found_by_both(init, by_words);
        let before = found_by_both(init, by_words);
        let now = found_by_both(urls, by_words);
        lemma_hit(by_words, urls.last());
        assert forall|i: int| 0 <= i < now.len() implies urls.contains((#[trigger] now[i]).url) by {
            if i < before.len() {
                assert(init.contains(before[i].url));
                let k = choose|k: int| 0 <= k < init.len() && init[k] == before[i].url;
                assert(urls[k] == before[i].url);
            } else {
                assert(urls[urls.len() - 1] == now[i].url);
            }
        }
        assert forall|i: int, j: int| 0 <= i < j < now.len() implies (#[trigger] now[i]).url != (
        #[trigger] now[j]).url by {
            if j == before.len() {
                assert(init.contains(before[i].url));
                let k = choose|k: int| 0 <= k < init.len() && init[k] == before[i].url;
                assert(urls[k] != urls[urls.len() - 1]);
            }
        }
    }
}

proof fn lemma_hit(list: Seq<Found>, url: Seq<char>)
    ensures
        hit_for(list, url) matches Some(f) ==> f.url == url,
    decreases list.len(),
{
    if list.len() > 0 {
        lemma_hit(list.drop_last(), url);
    }
}

proof fn lemma_taken_in(results: Seq<Found>, list: Seq<Found>)
    ensures
        urls_differ(results) ==> urls_differ(taken_in(results, list)),
        results.len() <= taken_in(results, list).len(),
        forall|i: int| 0 <= i < results.len() ==> #[trigger] taken_in(results, list)[i] == results[i],
        forall|k: int| 0 <= k < list.len() ==> is_found(taken_in(results, list), (#[trigger] list[k]).url),
    decreases list.len(),
{
    if list.len() > 0 {
        let init = list.drop_last();
        lemma_taken_in(results, init);
        let before = taken_in(results, init);
        let now = taken_in(results, list);
        assert forall|k: int| 0 <= k < list.len() implies is_found(now, (#[trigger] list[k]).url) by {
            if k < init.len() {
                assert(is_found(before, init[k].url));
                let i = choose|i: int| 0 <= i < before.len() && (#[trigger] before[i]).url == init[k].url;
                assert(now[i].url == list[k].url);
            } else if !is_found(before, list.last().url) {
                assert(now[now.len() - 1].url == list[k].url);
            }
        }
    }
}

/// A search gives each page once, and no more pages than asked for.
pub proof fn law_search_gives_each_page_once(
    by_meaning: Seq<Seq<char>>,
    by_words: Seq<Found>,
    looked_up: Seq<Found>,
    limit: u32,
)
    ensures
        search_results(by_meaning, by_words, looked_up, limit).len() <= limit,
        urls_differ(search_results(by_meaning, by_words, looked_up, limit)),
{
    let urls = distinct(by_meaning);
    law_distinct_holds_each_text_once(by_meaning);
    lemma_found_by_both(urls, by_words);
    let lead = found_by_both(urls, by_words);
    lemma_taken_in(lead, looked_up);
    lemma_taken_in(taken_in(lead, looked_up), by_words);
}

/// A search passes over no page for lack of words: as long as there is room, every page that was
/// looked up and every page that was found by words is among the results.
pub proof fn law_search_passes_over_no_page(
    by_meaning: Seq<Seq<char>>,
    by_words: Seq<Found>,
    looked_up: Seq<Found>,
    limit: u32,
)
    requires
        all_results(by_meaning, by_words, looked_up).len() <= limit,
    ensures
        forall|k: int|
            0 <= k < looked_up.len() ==> is_found(
                search_results(by_meaning, by_words, looked_up, limit),
                (#[trigger] looked_up[k]).url,
            ),
        forall|k: int|
            0 <= k < by_words.len() ==> is_found(
                search_results(by_meaning, by_words, looked_up, limit),
                (#[trigger] by_words[k]).url,
            ),
{
    let lead = found_by_both(distinct(by_meaning), by_words);
    let some = taken_in(lead, looked_up);
    lemma_taken_in(lead, looked_up);
    lemma_taken_in(some, by_words);
    let all = all_results(by_meaning, by_words, looked_up);
    assert forall|k: int| 0 <= k < looked_up.len() implies is_found(
        all,
        (#[trigger] looked_up[k]).url,
    ) by {
        assert(is_found(some, looked_up[k].url));
        let i = choose|i: int| 0 <= i < some.len() && (#[trigger] some[i]).url == looked_up[k].url;
        assert(all[i] == some[i]);
    }
}

/// The pages of a history that are shown are the first of all that no ban matches, in the order of
/// the history.
pub proof fn law_every_allowed_page_is_shown(
    items: Seq<HistoryItem>,
    banned_hosts: Seq<Seq<char>>,
    ban: Seq<Seq<char>>,
    limit: u32,
)
    ensures
        ({
            let all = kept(items, allowed_flags(items, banned_hosts, ban));
            &&& is_part(first_n(all, limit as nat), all, 0, limit as nat)
            &&& picked(
                items.len(),
                all,
                |i: int|
                    !any_matches(items[i].url@, banned_hosts) && !any_matches(items[i].url@, ban),
                |i: int| items[i],
            )
        }),
{
    let flags = allowed_flags(items, banned_hosts, ban);
    let same = |x: HistoryItem| x;
    assert(kept(items, flags).map_values(same) =~= kept(items, flags));
    lemma_kept_and_changed(
        items,
        flags,
        same,
        |i: int| !any_matches(items[i].url@, banned_hosts) && !any_matches(items[i].url@, ban),
        |i: int| items[i],
    );
}

/// What is found under a URL is the last entry with it, and nothing where there is none.
pub proof fn law_what_is_found_under_a_url(list: Seq<Found>, url: Seq<char>)
    ensures
        match hit_for(list, url) {
            Some(f) => exists|k: int|
                0 <= k < list.len() && #[trigger] list[k] == f && f.url == url && forall|j: int|
                    k < j < list.len() ==> (#[trigger] list[j]).url != url,
            None => !is_found(list, url),
        },
    decreases list.len(),
{
    if list.len() > 0 {
        let n = list.len() - 1;
        if list.last().url == url {
            assert(list[n].url == url);
        } else {
            let init = list.drop_last();
            law_what_is_found_under_a_url(init, url);
            match hit_for(init, url) {
                Some(f) => {
                    let k = choose|k: int|
                        0 <= k < init.len() && #[trigger] init[k] == f && f.url == url && forall|
                            j: int,
                        | k < j < init.len() ==> (#[trigger] init[j]).url != url;
                    assert(list[k] == f);
                    assert forall|j: int| k < j < list.len() implies (#[trigger] list[j]).url != url by {
                        if j < n {
                            assert(init[j].url != url);
                        }
                    }
                },
                None => {
                    if is_found(list, url) {
                        let k = choose|k: int| 0 <= k < list.len() && (#[trigger] list[k]).url == url;
                        assert(init[k].url == url);
                    }
                },
            }
        }
    }
}

/// The pages that are found both by meaning and by words lead the results of a search, in the
/// order of meaning; those found by meaning alone are the ones that are looked up. Behind come
/// those that were looked up, then those found by words alone.
pub proof fn law_pages_found_both_ways_lead(
    by_meaning: Seq<Seq<char>>,
    by_words: Seq<Found>,
    looked_up: Seq<Found>,
    limit: u32,
)
    ensures
        ({
            let urls = distinct(by_meaning);
            let lead = found_by_both(urls, by_words);
            let all = all_results(by_meaning, by_words, looked_up);
            &&& picked(
                urls.len(),
                lead,
                |i: int| is_found(by_words, urls[i]),
                |i: int| hit_for(by_words, urls[i])->0,
            )
            &&& picked(
                urls.len(),
                found_by_meaning_only(urls, by_words),
                |i: int| !is_found(by_words, urls[i]),
                |i: int| urls[i],
            )
            &&& lead.is_prefix_of(all)
            &&& is_part(
                search_results(by_meaning, by_words, looked_up, limit),
                all,
                0,
                limit as nat,
            )
            &&& forall|k: int|
                lead.len() <= k < all.len() ==> looked_up.contains(#[trigger] all[k])
                    || by_words.contains(all[k])
        }),
{
    let urls = distinct(by_meaning);
    let lead = found_by_both(urls, by_words);
    let some = taken_in(lead, looked_up);
    let all = taken_in(some, by_words);
    lemma_both_ways(urls, by_words);
    lemma_taken_in(lead, looked_up);
    lemma_taken_in(some, by_words);
    lemma_taken_from(lead, looked_up);
    lemma_taken_from(some, by_words);
    assert(lead =~= all.take(lead.len() as int));
    assert forall|k: int| lead.len() <= k < all.len() implies looked_up.contains(#[trigger] all[k])
        || by_words.contains(all[k]) by {
        if k < some.len() {
            assert(all[k] == some[k]);
        }
    }
}

proof fn lemma_taken_from(results: Seq<Found>, list: Seq<Found>)
    ensures
        forall|k: int|
            results.len() <= k < taken_in(results, list).len() ==> list.contains(
                #[trigger] taken_in(results, list)[k],
            ),
    decreases list.len(),
{
    if list.len() > 0 {
        let init = list.drop_last();
        lemma_taken_from(results, init);
        let before = taken_in(results, init);
        let now = taken_in(results, list);
        assert forall|k: int| results.len() <= k < now.len() implies list.contains(
            #[trigger] now[k],
        ) by {
            if k < before.len() {
                assert(now[k] == before[k]);
                let i = choose|i: int| 0 <= i < init.len() && init[i] == before[k];
                assert(list[i] == now[k]);
            } else {
                assert(list[list.len() - 1] == now[k]);
            }
        }
    }
}

proof fn lemma_both_ways(urls: Seq<Seq<char>>, by_words: Seq<Found>)
    ensures
        picked(
            urls.len(),
            found_by_both(urls, by_words),
            |i: int| is_found(by_words, urls[i]),
            |i: int| hit_for(by_words, urls[i])->0,
        ),
        picked(
            urls.len(),
            found_by_meaning_only(urls, by_words),
            |i: int| !is_found(by_words, urls[i]),
            |i: int| urls[i],
        ),
    decreases urls.len(),
{
    if urls.len() == 0 {
        lemma_picked_none(
            |i: int| is_found(by_words, urls[i]),
            |i: int| hit_for(by_words, urls[i])->0,
        );
        lemma_picked_none(|i: int| !is_found(by_words, urls[i]), |i: int| urls[i]);
    } else {
        let init = urls.drop_last();
        lemma_both_ways(init, by_words);
        law_what_is_found_under_a_url(by_words, urls.last());
        lemma_picked_one_more(
            init.len(),
            found_by_both(init, by_words),
            |i: int| is_found(by_words, init[i]),
            |i: int| hit_for(by_words, init[i])->0,
            found_by_both(urls, by_words),
            |i: int| is_found(by_words, urls[i]),
            |i: int| hit_for(by_words, urls[i])->0,
        );
        lemma_picked_one_more(
            init.len(),
            found_by_meaning_only(init, by_words),
            |i: int| !is_found(by_words, init[i]),
            |i: int| init[i],
            found_by_meaning_only(urls, by_words),
            |i: int| !is_found(by_words, urls[i]),
            |i: int| urls[i],
        );
    }
}

/// The group of a host has every page of the week with that host, in their order; the host is new
/// where it had no page in the time before.
pub proof fn law_a_group_has_every_page_of_its_host(
    list: Seq<Weekly>,
    prior: Seq<(Seq<char>, nat)>,
    host: Seq<char>,
)
    ensures
        ({
            let g = group_of(list, prior, host);
            &&& g.host == host
            &&& picked(list.len(), g.pages, |i: int| list[i].host == host, |i: int| list[i])
            &&& g.is_new <==> g.prior_count == 0
            &&& (forall|i: int| 0 <= i < prior.len() ==> (#[trigger] prior[i]).0 != host)
                ==> g.prior_count == 0
        }),
        forall|i: int|
            0 <= i < prior.len() && (#[trigger] prior[i]).0 == host && (forall|k: int|
                0 <= k < i ==> (#[trigger] prior[k]).0 != host) ==> group_of(list, prior, host).prior_count
                == prior[i].1,
        groups_of(list, prior).len() == distinct(week_hosts(list)).len(),
        forall|k: int|
            0 <= k < groups_of(list, prior).len() ==> #[trigger] groups_of(list, prior)[k] == group_of(
                list,
                prior,
                distinct(week_hosts(list))[k],
            ),
{
    lemma_of_host(list, host);
    lemma_count_under(prior, host);
}

proof fn lemma_count_under(list: Seq<(Seq<char>, nat)>, host: Seq<char>)
    ensures
        (forall|i: int| 0 <= i < list.len() ==> (#[trigger] list[i]).0 != host) ==> count_under(
            list,
            host,
        ) == 0,
        forall|i: int|
            0 <= i < list.len() && (#[trigger] list[i]).0 == host && (forall|k: int|
                0 <= k < i ==> (#[trigger] list[k]).0 != host) ==> count_under(list, host)
                == list[i].1,
    decreases list.len(),
{
    if list.len() > 0 && list[0].0 != host {
        let rest = list.drop_first();
        lemma_count_under(rest, host);
        assert forall|i: int|
            0 <= i < list.len() && (#[trigger] list[i]).0 == host && (forall|k: int|
                0 <= k < i ==> (#[trigger] list[k]).0 != host) implies count_under(list, host)
            == list[i].1 by {
            assert(rest[i - 1] == list[i]);
            assert forall|k: int| 0 <= k < i - 1 implies (#[trigger] rest[k]).0 != host by {
                assert(list[k + 1].0 != host);
            }
        }
        if forall|i: int| 0 <= i < list.len() ==> (#[trigger] list[i]).0 != host {
            assert forall|i: int| 0 <= i < rest.len() implies (#[trigger] rest[i]).0 != host by {
                assert(list[i + 1].0 != host);
            }
        }
    }
}

proof fn lemma_of_host(list: Seq<Weekly>, host: Seq<char>)
    ensures
        picked(list.len(), of_host(list, host), |i: int| list[i].host == host, |i: int| list[i]),
    decreases list.len(),
{
    if list.len() == 0 {
        lemma_picked_none(|i: int| list[i].host == host, |i: int| list[i]);
    } else {
        let init = list.drop_last();
        lemma_of_host(init, host);
        lemma_picked_one_more(
            init.len(),
            of_host(init, host),
            |i: int| init[i].host == host,
            |i: int| init[i],
            of_host(list, host),
            |i: int| list[i].host == host,
            |i: int| list[i],
        );
    }
}

/// The list of starred pages as text has a line for each of them: its title, or its URL where it
/// has none, and its URL.
pub proof fn law_every_starred_page_has_a_line(list: Seq<Entry>, i: int)
    requires
        0 <= i < list.len(),
    ensures
        has_prefix(markdown_lines(list), "# Starred Pages\n\n"@),
        contains_text(
            markdown_lines(list),
            "- ["@ + (if list[i].title.len() == 0 {
                list[i].url
            } else {
                list[i].title
            }) + "]("@ + list[i].url + ")\n"@,
        ),
    decreases list.len(),
{
    let init = list.drop_last();
    let e = list.last();
    let front = markdown_lines(init);
    let shown = if e.title.len() == 0 {
        e.url
    } else {
        e.title
    };
    let line = "- ["@ + shown + "]("@ + e.url + ")\n"@;
    assert(markdown_lines(list) =~= front + line);
    let head = "# Starred Pages\n\n"@;
    if init.len() > 0 {
        law_every_starred_page_has_a_line(
            init,
            if i < init.len() {
                i
            } else {
                0
            },
        );
    } else {
        assert(front.subrange(0, head.len() as int) =~= head);
    }
    assert(markdown_lines(list).subrange(0, head.len() as int) =~= front.subrange(
        0,
        head.len() as int,
    ));
    if i < init.len() {
        let wanted = "- ["@ + (if list[i].title.len() == 0 {
            list[i].url
        } else {
            list[i].title
        }) + "]("@ + list[i].url + ")\n"@;
        lemma_stands_within(Seq::empty(), front, line, wanted);
        assert(Seq::<char>::empty() + front + line =~= markdown_lines(list));
    } else {
        lemma_stands_between(front, line, Seq::empty());
        assert(front + line + Seq::<char>::empty() =~= markdown_lines(list));
    }
}

/// A page of a host that is passed over is not looked through for recipes; else the recipe that
/// it has is stored, one that looks like a recipe waits, and any other has none.
pub proof fn law_what_becomes_of_a_recipe(
    url: Seq<char>,
    skip_hosts: Seq<Seq<char>>,
    has_recipe: bool,
    title: Seq<char>,
    body: Seq<char>,
)
    ensures
        ({
            let step = recipe_choice(url, skip_hosts, has_recipe, title, body);
            let passed = web_host(url) is Some && skip_hosts.contains(web_host(url)->0);
            &&& step is Skip <==> passed
            &&& step is Store <==> !passed && has_recipe
            &&& step is Pending <==> !passed && !has_recipe && recipe_like(title, body)
            &&& step is Absent <==> !passed && !has_recipe && !recipe_like(title, body)
        }),
{
}

} // verus!
