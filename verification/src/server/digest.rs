//! Digests of what was visited: batches of pages are summarised, and the summaries made into one
//! text.

use vstd::prelude::*;
use vstd::string::*;

use crate::rag::context::{BATCH_SUMMARIZE_PROMPT, DEFAULT_DIGEST_PROMPT};
use crate::server::answers::{html_of, markdown_to_html};
use crate::text::{
    contains_text, decimal, has_suffix, join, joined, law_joined_texts_are_there,
    lemma_stands_between, lemma_stands_within, pairs, push_decimal, replace, replaced, texts, trim,
    trimmed,
};

verus! {

/// How many pages are summarised at once.
pub const BATCH: usize = 10;

/// A number of hours in words.
pub open spec fn hours_words(hours: u64) -> Seq<char> {
    if hours == 1 {
        "1 hour"@
    } else if hours == 24 {
        "24 hours"@
    } else if hours % 24 == 0 {
        decimal((hours / 24) as nat) + " days"@
    } else {
        decimal(hours as nat) + " hours"@
    }
}

/// A number of hours in words: whole days, from two on, are given in days.
pub fn hours_label(hours: u64) -> (r: String)
    ensures
        r@ == hours_words(hours),
{
    if hours == 1 {
        return "1 hour".to_owned();
    }
    if hours == 24 {
        return "24 hours".to_owned();
    }
    let mut out: String = String::new();
    if hours % 24 == 0 {
        push_decimal(&mut out, hours / 24);
        assert(out@ =~= decimal((hours / 24) as nat));
        out.append(" days");
    } else {
        push_decimal(&mut out, hours);
        assert(out@ =~= decimal(hours as nat));
        out.append(" hours");
    }
    out
}

/// A digest in the making: the pages, by title and excerpt, and the summaries so far.
pub struct Digest {
    pub hours: u64,
    pub pages: Vec<(String, String)>,
    pub summaries: Vec<String>,
}

/// What a digest in the making stands for.
#[verifier::ext_equal]
pub struct Draft {
    pub hours: u64,
    pub pages: Seq<(Seq<char>, Seq<char>)>,
    pub summaries: Seq<Seq<char>>,
}

impl View for Digest {
    type V = Draft;

    open spec fn view(&self) -> Draft {
        Draft {
            hours: self.hours,
            pages: pairs(self.pages@),
            summaries: texts(self.summaries@),
        }
    }
}

/// What to do next.
pub enum DigestAction {
    /// Ask the model, after telling it something.
    Ask { system: String, prompt: String },
    /// The digest is finished: as it was written, and as it is shown.
    Finish { md: String, html: String },
    /// The digest failed.
    Fail(String),
}

/// What an action stands for.
pub enum Deed {
    Ask { system: Seq<char>, prompt: Seq<char> },
    Finish { md: Seq<char>, html: Seq<char> },
    Fail(Seq<char>),
}

impl View for DigestAction {
    type V = Deed;

    open spec fn view(&self) -> Deed {
        match self {
            DigestAction::Ask { system, prompt } => Deed::Ask { system: system@, prompt: prompt@ },
            DigestAction::Finish { md, html } => Deed::Finish { md: md@, html: html@ },
            DigestAction::Fail(e) => Deed::Fail(e@),
        }
    }
}

/// How many batches there are.
pub open spec fn batches(pages: nat) -> nat {
    ((pages + 9) / 10) as nat
}

/// The pages of a batch.
pub open spec fn batch(
    pages: Seq<(Seq<char>, Seq<char>)>,
    i: int,
) -> Seq<(Seq<char>, Seq<char>)> {
    pages.subrange(
        10 * i,
        if 10 * i + 10 <= pages.len() {
            10 * i + 10
        } else {
            pages.len() as int
        },
    )
}

/// A page in the prompt for a batch.
pub open spec fn batch_line(number: nat, title: Seq<char>, snippet: Seq<char>) -> Seq<char> {
    "["@ + decimal(number) + "] Title: \""@ + trimmed(title) + "\" — Excerpt: \""@ + replaced(
        trimmed(snippet),
        '\n',
        " "@,
    ) + "\""@
}

/// The prompt for a batch: its pages, numbered from one.
pub open spec fn batch_text(pages: Seq<(Seq<char>, Seq<char>)>) -> Seq<char> {
    joined(
        Seq::new(pages.len(), |j: int| batch_line((j + 1) as nat, pages[j].0, pages[j].1)),
        "\n"@,
    )
}

/// A summary in the prompt for the digest.
pub open spec fn summary_line(number: nat, summary: Seq<char>) -> Seq<char> {
    "**Batch "@ + decimal(number) + ":**\n"@ + summary
}

/// The prompt for the digest: all summaries, numbered from one.
pub open spec fn synthesis_text(d: Draft) -> Seq<char> {
    "Browsing digest — last "@ + hours_words(d.hours) + " ("@ + decimal(d.pages.len())
        + " pages total):\n\n"@ + joined(
        Seq::new(d.summaries.len(), |i: int| summary_line((i + 1) as nat, d.summaries[i])),
        "\n\n"@,
    )
}

/// A page in the prompt for a batch.
fn write_line(number: usize, title: &str, snippet: &str) -> (r: String)
    ensures
        r@ == batch_line(number as nat, title@, snippet@),
{
    let mut out: String = "[".to_owned();
    push_decimal(&mut out, number as u64);
    out.append("] Title: \"");
    out.append(trim(title));
    out.append("\" — Excerpt: \"");
    out.append(replace(trim(snippet), '\n', " ").as_str());
    out.append("\"");
    out
}

/// The prompt for a batch.
pub fn batch_prompt(pages: &Vec<(String, String)>, i: usize) -> (r: String)
    requires
        i < batches(pages@.len()),
    ensures
        r@ == batch_text(batch(pairs(pages@), i as int)),
{
    let total: usize = pages.len();
    let from: usize = 10 * i;
    let to: usize = if total - from >= 10 {
        from + 10
    } else {
        total
    };
    let ghost part = batch(pairs(pages@), i as int);
    let ghost wanted = Seq::new(
        part.len(),
        |j: int| batch_line((j + 1) as nat, part[j].0, part[j].1),
    );
    let mut out: Vec<String> = Vec::new();
    let mut j: usize = from;
    while j < to
        invariant
            from <= j <= to <= total,
            to - from <= 10,
            total == pages@.len(),
            from == 10 * i,
            part == pairs(pages@).subrange(from as int, to as int),
            wanted == Seq::new(
                part.len(),
                |j: int| batch_line((j + 1) as nat, part[j].0, part[j].1),
            ),
            out@.len() == j - from,
            forall|k: int| 0 <= k < out@.len() ==> (#[trigger] out@[k])@ == wanted[k],
        decreases to - j,
    {
        let n: usize = j - from;
        assert(part[n as int] == (pages@[j as int].0@, pages@[j as int].1@));
        let line: String = write_line(n + 1, pages[j].0.as_str(), pages[j].1.as_str());
        out.push(line);
        j = j + 1;
    }
    assert(texts(out@) =~= wanted);
    join(&out, "\n")
}

/// The prompt for the digest.
fn synthesis_prompt(d: &Digest) -> (r: String)
    ensures
        r@ == synthesis_text(d@),
{
    let total: usize = d.summaries.len();
    let ghost list = d@.summaries;
    let ghost wanted = Seq::new(list.len(), |i: int| summary_line((i + 1) as nat, list[i]));
    let mut parts: Vec<String> = Vec::new();
    let mut i: usize = 0;
    while i < total
        invariant
            i <= total,
            total == d.summaries@.len(),
            list == d@.summaries,
            wanted == Seq::new(list.len(), |i: int| summary_line((i + 1) as nat, list[i])),
            parts@.len() == i,
            forall|k: int| 0 <= k < i ==> (#[trigger] parts@[k])@ == wanted[k],
        decreases total - i,
    {
        let mut line: String = "**Batch ".to_owned();
        push_decimal(&mut line, (i + 1) as u64);
        line.append(":**\n");
        line.append(d.summaries[i].as_str());
        assert(list[i as int] == d.summaries@[i as int]@);
        parts.push(line);
        i = i + 1;
    }
    assert(texts(parts@) =~= wanted);
    let mut out: String = "Browsing digest — last ".to_owned();
    out.append(hours_label(d.hours).as_str());
    out.append(" (");
    push_decimal(&mut out, d.pages.len() as u64);
    out.append(" pages total):\n\n");
    out.append(join(&parts, "\n\n").as_str());
    out
}

/// The notice of progress about a batch.
pub open spec fn batch_notice(i: int, pages: nat) -> Seq<char> {
    "Summarizing batch "@ + decimal((i + 1) as nat) + " of "@ + decimal(batches(pages)) + "…"@
}

/// The notice of progress about a batch.
fn write_batch_notice(i: usize, pages: usize) -> (r: String)
    requires
        i < pages,
        pages <= usize::MAX - 9,
    ensures
        r@ == batch_notice(i as int, pages as nat),
{
    let mut out: String = "Summarizing batch ".to_owned();
    push_decimal(&mut out, (i + 1) as u64);
    out.append(" of ");
    push_decimal(&mut out, ((pages + 9) / 10) as u64);
    out.append("…");
    out
}

/// What comes first: a digest of no pages is finished at once, and otherwise the first batch is
/// summarised. With it come the notices of progress.
pub open spec fn first_deed(d: Draft) -> (Seq<Seq<char>>, Deed) {
    let label = hours_words(d.hours);
    if d.pages.len() == 0 {
        (
            Seq::empty(),
            Deed::Finish {
                md: "No indexed pages found in the last "@ + label + "."@,
                html: "<p>No indexed pages found in the last "@ + label + ".</p>"@,
            },
        )
    } else {
        (
            seq![
                "Found "@ + decimal(d.pages.len()) + " pages in the last "@ + label + "…"@,
                batch_notice(0, d.pages.len()),
            ],
            Deed::Ask { system: BATCH_SUMMARIZE_PROMPT@, prompt: batch_text(batch(d.pages, 0)) },
        )
    }
}

/// Starts a digest of the pages of some hours.
pub fn digest_begin(hours: u64, pages: Vec<(String, String)>) -> (r: (
    Digest,
    Vec<String>,
    DigestAction,
))
    requires
        pages@.len() <= usize::MAX - 9,
    ensures
        r.0@ == (Draft { hours, pages: pairs(pages@), summaries: Seq::empty() }),
        (texts(r.1@), r.2@) == first_deed(r.0@),
{
    let d = Digest { hours, pages, summaries: Vec::new() };
    assert(d@.summaries =~= Seq::empty());
    let label: String = hours_label(hours);
    let mut notices: Vec<String> = Vec::new();
    assert(texts(notices@) =~= Seq::empty());
    let total: usize = d.pages.len();
    if total == 0 {
        let mut md: String = "No indexed pages found in the last ".to_owned();
        md.append(label.as_str());
        md.append(".");
        let mut html: String = "<p>No indexed pages found in the last ".to_owned();
        html.append(label.as_str());
        html.append(".</p>");
        return (d, notices, DigestAction::Finish { md, html });
    }
    let mut found: String = "Found ".to_owned();
    push_decimal(&mut found, total as u64);
    found.append(" pages in the last ");
    found.append(label.as_str());
    found.append("…");
    notices.push(found);
    notices.push(write_batch_notice(0, total));
    assert(texts(notices@) =~= first_deed(d@).0);
    let prompt: String = batch_prompt(&d.pages, 0);
    (d, notices, DigestAction::Ask { system: BATCH_SUMMARIZE_PROMPT.to_owned(), prompt })
}

/// What the model is told before it writes the digest.
pub open spec fn digest_instructions(configured: Option<String>) -> Seq<char> {
    match configured {
        Some(p) => p@,
        None => DEFAULT_DIGEST_PROMPT@,
    }
}

/// A digest still lacks summaries.
pub open spec fn lacks_summaries(d: Draft) -> bool {
    d.summaries.len() < batches(d.pages.len())
}

/// What comes after a reply of the model: the next batch, the digest itself, or its end.
pub open spec fn next_deed(d: Draft, reply: Result<String, String>, configured: Option<String>) -> (
    Draft,
    Seq<Seq<char>>,
    Deed,
) {
    let i = d.summaries.len();
    if lacks_summaries(d) {
        match reply {
            Err(e) => (
                d,
                Seq::empty(),
                Deed::Fail("Batch "@ + decimal((i + 1) as nat) + " failed: "@ + e@),
            ),
            Ok(s) => {
                let now = Draft { summaries: d.summaries.push(s@), ..d };
                if lacks_summaries(now) {
                    (
                        now,
                        seq![batch_notice((i + 1) as int, d.pages.len())],
                        Deed::Ask {
                            system: BATCH_SUMMARIZE_PROMPT@,
                            prompt: batch_text(batch(d.pages, (i + 1) as int)),
                        },
                    )
                } else {
                    (
                        now,
                        seq!["Writing digest…"@],
                        Deed::Ask {
                            system: digest_instructions(configured),
                            prompt: synthesis_text(now),
                        },
                    )
                }
            },
        }
    } else {
        match reply {
            Err(e) => (d, Seq::empty(), Deed::Fail("Synthesis failed: "@ + e@)),
            Ok(md) => (d, Seq::empty(), Deed::Finish { md: md@, html: html_of(md@) }),
        }
    }
}

/// Takes in a reply of the model.
pub fn digest_step(d: Digest, reply: Result<String, String>, configured: &Option<String>) -> (r: (
    Digest,
    Vec<String>,
    DigestAction,
))
    requires
        d.pages@.len() <= usize::MAX - 9,
    ensures
        (r.0@, texts(r.1@), r.2@) == next_deed(d@, reply, *configured),
{
    let mut notices: Vec<String> = Vec::new();
    assert(texts(notices@) =~= Seq::empty());
    let total: usize = d.pages.len();
    let n: usize = (total + 9) / 10;
    let i: usize = d.summaries.len();
    assert(d@.summaries.len() == i);
    assert(d@.pages.len() == total);
    assert(n == batches(d@.pages.len()));
    if i < n {
        match reply {
            Err(e) => {
                let mut out: String = "Batch ".to_owned();
                push_decimal(&mut out, (i + 1) as u64);
                out.append(" failed: ");
                out.append(e.as_str());
                (d, notices, DigestAction::Fail(out))
            },
            Ok(s) => {
                let mut now: Digest = d;
                let ghost before = now.summaries@;
                now.summaries.push(s);
                assert(texts(now.summaries@) =~= texts(before).push(s@));
                assert(now@ =~= Draft { summaries: d@.summaries.push(s@), ..d@ });
                if i + 1 < n {
                    notices.push(write_batch_notice(i + 1, total));
                    assert(texts(notices@) =~= seq![batch_notice((i + 1) as int, total as nat)]);
                    let prompt: String = batch_prompt(&now.pages, i + 1);
                    (
                        now,
                        notices,
                        DigestAction::Ask { system: BATCH_SUMMARIZE_PROMPT.to_owned(), prompt },
                    )
                } else {
                    notices.push("Writing digest…".to_owned());
                    assert(texts(notices@) =~= seq!["Writing digest…"@]);
                    let system: String = match configured {
                        Some(p) => p.clone(),
                        None => DEFAULT_DIGEST_PROMPT.to_owned(),
                    };
                    let prompt: String = synthesis_prompt(&now);
                    (now, notices, DigestAction::Ask { system, prompt })
                }
            },
        }
    } else {
        match reply {
            Err(e) => {
                let mut out: String = "Synthesis failed: ".to_owned();
                out.append(e.as_str());
                (d, notices, DigestAction::Fail(out))
            },
            Ok(md) => {
                let html: String = markdown_to_html(md.as_str());
                (d, notices, DigestAction::Finish { md, html })
            },
        }
    }
}

/// Every page is in one batch: put behind each other the batches are the list of pages.
pub proof fn law_batches_hold_every_page(pages: Seq<(Seq<char>, Seq<char>)>, k: int)
    requires
        0 <= k < pages.len(),
    ensures
        k / 10 < batches(pages.len()),
        k % 10 < batch(pages, k / 10).len(),
        batch(pages, k / 10)[k % 10] == pages[k],
{
}

/// Every reply that is no error brings the digest closer to its end.
pub proof fn law_replies_lead_to_the_end(d: Draft, reply: Result<String, String>, configured: Option<String>)
    ensures
        ({
            let (now, _, deed) = next_deed(d, reply, configured);
            &&& lacks_summaries(d) && reply is Ok ==> now.summaries.len() == d.summaries.len() + 1
                && deed is Ask
            &&& !lacks_summaries(d) && reply is Ok ==> deed is Finish
            &&& reply is Err ==> deed is Fail
        }),
{
}

/// What the model is asked to summarise holds every page of the batch, with its number, its title
/// and its excerpt; the batch after those that are summarised is asked for next, until there is
/// none. Then the model is handed all summaries, in their order, and what it writes is the digest.
pub proof fn law_every_batch_is_summarised(
    d: Draft,
    reply: Result<String, String>,
    configured: Option<String>,
)
    ensures
        ({
            let (now, notices, deed) = next_deed(d, reply, configured);
            let n = d.summaries.len();
            &&& now.pages == d.pages && now.hours == d.hours
            &&& reply is Ok && 10 * n < d.pages.len() ==> {
                &&& now.summaries == d.summaries.push(reply->Ok_0@)
                &&& 10 * (n + 1) < d.pages.len() ==> deed == (Deed::Ask {
                    system: BATCH_SUMMARIZE_PROMPT@,
                    prompt: batch_text(batch(d.pages, (n + 1) as int)),
                })
                &&& 10 * (n + 1) >= d.pages.len() ==> deed == (Deed::Ask {
                    system: if configured is Some {
                        configured->0@
                    } else {
                        DEFAULT_DIGEST_PROMPT@
                    },
                    prompt: synthesis_text(now),
                })
            }
            &&& reply is Ok && 10 * n >= d.pages.len() ==> deed == (Deed::Finish {
                md: reply->Ok_0@,
                html: html_of(reply->Ok_0@),
            }) && now == d
            &&& reply is Err ==> deed is Fail && has_suffix(deed->Fail_0, reply->Err_0@) && now == d
        }),
        d.pages.len() == 0 ==> first_deed(d).1 is Finish,
        d.pages.len() > 0 ==> first_deed(d).1 == (Deed::Ask {
            system: BATCH_SUMMARIZE_PROMPT@,
            prompt: batch_text(batch(d.pages, 0)),
        }),
{
    let (now, notices, deed) = next_deed(d, reply, configured);
    if let Err(e) = reply {
        let told = deed->Fail_0;
        let at = told.len() - e@.len();
        assert(told.subrange(at, at + e@.len()) =~= e@);
    }
}

/// The text of a batch holds each of its pages, and the text of all summaries each of them.
pub proof fn law_digests_hold_everything(
    pages: Seq<(Seq<char>, Seq<char>)>,
    d: Draft,
    i: int,
    j: int,
)
    requires
        0 <= i < pages.len(),
        0 <= j < d.summaries.len(),
    ensures
        contains_text(
            batch_text(pages),
            "["@ + decimal((i + 1) as nat) + "] Title: \""@ + trimmed(pages[i].0)
                + "\" — Excerpt: \""@ + replaced(trimmed(pages[i].1), '\n', " "@) + "\""@,
        ),
        contains_text(
            synthesis_text(d),
            "**Batch "@ + decimal((j + 1) as nat) + ":**\n"@ + d.summaries[j],
        ),
        contains_text(synthesis_text(d), hours_words(d.hours)),
{
    let lines = Seq::new(
        pages.len(),
        |j: int| batch_line((j + 1) as nat, pages[j].0, pages[j].1),
    );
    law_joined_texts_are_there(lines, "\n"@, i);
    let parts = Seq::new(d.summaries.len(), |i: int| summary_line((i + 1) as nat, d.summaries[i]));
    law_joined_texts_are_there(parts, "\n\n"@, j);
    let front = "Browsing digest — last "@ + hours_words(d.hours) + " ("@ + decimal(d.pages.len())
        + " pages total):\n\n"@;
    let text = joined(parts, "\n\n"@);
    lemma_stands_within(front, text, Seq::empty(), parts[j]);
    assert(front + text + Seq::<char>::empty() =~= synthesis_text(d));
    let rest = " ("@ + decimal(d.pages.len()) + " pages total):\n\n"@ + text;
    lemma_stands_between("Browsing digest — last "@, hours_words(d.hours), rest);
    assert("Browsing digest — last "@ + hours_words(d.hours) + rest =~= synthesis_text(d));
}

/// The batches have ten pages each, but for the last, and stand behind each other.
pub proof fn law_batches_have_ten_pages(pages: Seq<(Seq<char>, Seq<char>)>, i: int)
    requires
        0 <= i,
        10 * i < pages.len(),
    ensures
        batch(pages, i).len() == if pages.len() - 10 * i < 10 {
            pages.len() - 10 * i
        } else {
            10
        },
        forall|k: int| 0 <= k < batch(pages, i).len() ==> #[trigger] batch(pages, i)[k] == pages[10 * i + k],
{
}

/// A time is told in days where it is whole days and more than one, and in hours otherwise.
pub proof fn law_times_are_told_in_days_or_hours(hours: u64, days: nat)
    ensures
        days > 1 && hours == 24 * days ==> hours_words(hours) == decimal(days) + " days"@,
        hours > 1 && hours % 24 != 0 ==> hours_words(hours) == decimal(hours as nat) + " hours"@,
        hours_words(1) == "1 hour"@,
        hours_words(24) == "24 hours"@,
{
    if days > 1 && hours == 24 * days {
        assert(hours % 24 == 0 && hours / 24 == days);
    }
}

} // verus!
