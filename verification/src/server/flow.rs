//! The steps of answering: what is looked up when, and what is made of it.

use vstd::prelude::*;
use vstd::string::*;

use crate::lists::{given_by, lemma_picked, picked};
use crate::rag::context::{
    body_for, dated, has_url, law_every_url_counts_once, law_sources_keep_first_places,
    law_the_context_is_bounded, merge_sources, question_text, search_context, share, source_parts,
    source_urls, sources_text, template_or_default, unique_sources, urls_of, xml_escaped,
    SYSTEM_PROMPT_TEMPLATE,
};
use crate::server::answers::{ask_prompts, ask_sources, given_sources};
use crate::server::AskSource;
use crate::text::{
    at_most, contains_text, decimal, has_suffix, law_joined_texts_are_there, lemma_stands_between,
    lemma_stands_within, pairs, texts,
};

verus! {

/// A question that is to be answered.
pub struct Question {
    pub q: String,
    /// How many pages are looked for.
    pub k: u32,
    /// The pages that the answer is to rest on, if any are given.
    pub given: Vec<AskSource>,
    pub max_context_chars: usize,
    pub system_prompt: Option<String>,
    /// The date of today.
    pub date: String,
}

/// How far the answering of a question has come.
pub enum AskStage {
    /// Nothing is done yet.
    Begin,
    /// Pages are being looked for.
    Searching,
    /// The texts of the sources are being read.
    Reading(Vec<(String, String)>),
    /// The model is being asked.
    Thinking(Vec<(String, String)>),
    /// Everything is done.
    Finished,
}

/// What a stage stands for.
pub enum AskAt {
    Begin,
    Searching,
    Reading(Seq<(Seq<char>, Seq<char>)>),
    Thinking(Seq<(Seq<char>, Seq<char>)>),
    Finished,
}

impl View for AskStage {
    type V = AskAt;

    open spec fn view(&self) -> AskAt {
        match self {
            AskStage::Begin => AskAt::Begin,
            AskStage::Searching => AskAt::Searching,
            AskStage::Reading(s) => AskAt::Reading(pairs(s@)),
            AskStage::Thinking(s) => AskAt::Thinking(pairs(s@)),
            AskStage::Finished => AskAt::Finished,
        }
    }
}

/// What happened.
pub enum AskEvent {
    Started,
    /// The pages that were found by meaning and by words.
    Hits { by_meaning: Vec<(String, String)>, by_words: Vec<(String, String)> },
    /// The texts of the sources.
    Bodies(Vec<(String, String)>),
    /// What the model answered.
    Answer(String),
    /// The model failed.
    Failed(String),
}

/// What to do next.
pub enum AskAction {
    /// Look for pages by meaning, where that is possible, and by words.
    Search { q: String, k: u32 },
    /// Read the texts of pages.
    Read { urls: Vec<String> },
    /// Ask the model, after telling it something.
    Think { prompt: String, system: String },
    /// There is no page that the answer could rest on.
    NoSources,
    /// This is the answer, and what it rests on.
    Finish { answer: String, sources: Vec<(String, String)> },
    /// There is no answer.
    Refuse(String),
}

/// What an action stands for.
pub enum AskDeed {
    Search { q: Seq<char>, k: u32 },
    Read { urls: Seq<Seq<char>> },
    Think { prompt: Seq<char>, system: Seq<char> },
    NoSources,
    Finish { answer: Seq<char>, sources: Seq<(Seq<char>, Seq<char>)> },
    Refuse(Seq<char>),
}

impl View for AskAction {
    type V = AskDeed;

    open spec fn view(&self) -> AskDeed {
        match self {
            AskAction::Search { q, k } => AskDeed::Search { q: q@, k: *k },
            AskAction::Read { urls } => AskDeed::Read { urls: texts(urls@) },
            AskAction::Think { prompt, system } => AskDeed::Think {
                prompt: prompt@,
                system: system@,
            },
            AskAction::NoSources => AskDeed::NoSources,
            AskAction::Finish { answer, sources } => AskDeed::Finish {
                answer: answer@,
                sources: pairs(sources@),
            },
            AskAction::Refuse(e) => AskDeed::Refuse(e@),
        }
    }
}

/// The event can happen at this stage.
pub open spec fn ask_expected(at: AskAt, event: AskEvent) -> bool {
    match at {
        AskAt::Begin => event is Started,
        AskAt::Searching => event is Hits,
        AskAt::Reading(_) => event is Bodies,
        AskAt::Thinking(_) => event is Answer || event is Failed,
        AskAt::Finished => false,
    }
}

/// What comes once the sources are known.
pub open spec fn sources_known(sources: Seq<(Seq<char>, Seq<char>)>) -> (AskAt, AskDeed) {
    if sources.len() == 0 {
        (AskAt::Finished, AskDeed::NoSources)
    } else {
        (AskAt::Reading(sources), AskDeed::Read { urls: urls_of(sources) })
    }
}

/// What to do about an event. Given sources are taken as they are; otherwise pages are looked
/// for. The model is asked only where there is a source.
pub open spec fn ask_next(question: Question, at: AskAt, event: AskEvent) -> (AskAt, AskDeed) {
    match (at, event) {
        (AskAt::Begin, _) => if question.given@.len() > 0 {
            sources_known(given_sources(question.given@))
        } else {
            (AskAt::Searching, AskDeed::Search { q: question.q@, k: question.k })
        },
        (AskAt::Searching, AskEvent::Hits { by_meaning, by_words }) => sources_known(
            unique_sources(pairs(by_meaning@) + pairs(by_words@)),
        ),
        (AskAt::Reading(sources), AskEvent::Bodies(bodies)) => (
            AskAt::Thinking(sources),
            AskDeed::Think {
                prompt: question_text(
                    sources_text(sources, pairs(bodies@), question.max_context_chars),
                    question.q@,
                ),
                system: dated(question.date@, template_or_default(question.system_prompt)),
            },
        ),
        (AskAt::Thinking(sources), AskEvent::Answer(answer)) => (
            AskAt::Finished,
            AskDeed::Finish { answer: answer@, sources },
        ),
        (AskAt::Thinking(_), AskEvent::Failed(e)) => (AskAt::Finished, AskDeed::Refuse(e@)),
        _ => (AskAt::Finished, AskDeed::NoSources),
    }
}

/// What comes once the sources are known.
fn go_on_with_sources(sources: Vec<(String, String)>) -> (r: (AskStage, AskAction))
    ensures
        (r.0@, r.1@) == sources_known(pairs(sources@)),
{
    assert(pairs(sources@).len() == sources@.len());
    if sources.len() == 0 {
        (AskStage::Finished, AskAction::NoSources)
    } else {
        let urls: Vec<String> = source_urls(&sources);
        (AskStage::Reading(sources), AskAction::Read { urls })
    }
}

/// Decides what to do about an event in the answering of a question.
pub fn ask_step(question: &Question, stage: AskStage, event: AskEvent) -> (r: (AskStage, AskAction))
    requires
        ask_expected(stage@, event),
    ensures
        (r.0@, r.1@) == ask_next(*question, stage@, event),
{
    match (stage, event) {
        (AskStage::Begin, _) => {
            if question.given.len() > 0 {
                let none: Vec<(String, String)> = Vec::new();
                go_on_with_sources(ask_sources(&question.given, &none, &none))
            } else {
                (
                    AskStage::Searching,
                    AskAction::Search { q: question.q.clone(), k: question.k },
                )
            }
        },
        (AskStage::Searching, AskEvent::Hits { by_meaning, by_words }) => go_on_with_sources(
            merge_sources(&by_meaning, &by_words),
        ),
        (AskStage::Reading(sources), AskEvent::Bodies(bodies)) => {
            let (prompt, system): (String, String) = ask_prompts(
                question.q.as_str(),
                &sources,
                &bodies,
                question.max_context_chars,
                &question.system_prompt,
                question.date.as_str(),
            );
            (AskStage::Thinking(sources), AskAction::Think { prompt, system })
        },
        (AskStage::Thinking(sources), AskEvent::Answer(answer)) => (
            AskStage::Finished,
            AskAction::Finish { answer, sources },
        ),
        (AskStage::Thinking(_), AskEvent::Failed(e)) => (AskStage::Finished, AskAction::Refuse(e)),
        _ => (AskStage::Finished, AskAction::NoSources),
    }
}

/// How many steps may follow a stage.
pub open spec fn ask_steps_left(at: AskAt) -> nat {
    match at {
        AskAt::Begin => 4,
        AskAt::Searching => 3,
        AskAt::Reading(_) => 2,
        AskAt::Thinking(_) => 1,
        AskAt::Finished => 0,
    }
}

/// A question is answered or refused in at most four steps, whatever is found.
pub proof fn law_every_question_comes_to_an_end(question: Question, at: AskAt, event: AskEvent)
    requires
        ask_expected(at, event),
    ensures
        ask_steps_left(ask_next(question, at, event).0) < ask_steps_left(at),
{
}

/// The model is asked only with sources, and an answer is given only with the sources that the
/// model saw.
pub proof fn law_answers_rest_on_sources(question: Question, at: AskAt, event: AskEvent)
    requires
        ask_expected(at, event),
        at matches AskAt::Reading(s) ==> s.len() > 0,
        at matches AskAt::Thinking(s) ==> s.len() > 0,
    ensures
        ({
            let (next, deed) = ask_next(question, at, event);
            &&& next matches AskAt::Reading(s) ==> s.len() > 0
            &&& next matches AskAt::Thinking(s) ==> s.len() > 0 && at == AskAt::Reading(s)
            &&& deed is Think ==> next is Thinking
            &&& deed matches AskDeed::Finish { sources, .. } ==> at == AskAt::Thinking(sources)
                && sources.len() > 0
        }),
{
}

/// How far a search on behalf of the model has come.
pub enum SearchStage {
    /// Pages are being looked for.
    Searching,
    /// Nothing was found: the pages visited last are being listed.
    Listing,
    /// The texts of the pages are being read.
    Reading(Vec<(String, String)>),
    /// Everything is done.
    Finished,
}

/// What a stage stands for.
pub enum SearchAt {
    Searching,
    Listing,
    Reading(Seq<(Seq<char>, Seq<char>)>),
    Finished,
}

impl View for SearchStage {
    type V = SearchAt;

    open spec fn view(&self) -> SearchAt {
        match self {
            SearchStage::Searching => SearchAt::Searching,
            SearchStage::Listing => SearchAt::Listing,
            SearchStage::Reading(s) => SearchAt::Reading(pairs(s@)),
            SearchStage::Finished => SearchAt::Finished,
        }
    }
}

/// What happened.
pub enum SearchEvent {
    /// The pages that were found by meaning and by words.
    Hits { by_meaning: Vec<(String, String)>, by_words: Vec<(String, String)> },
    /// The pages visited last.
    Latest(Vec<(String, String)>),
    /// The texts of the pages.
    Bodies(Vec<(String, String)>),
}

/// What to do next.
pub enum SearchAction {
    /// List the pages visited last, up to so many.
    List { limit: u32 },
    /// Read the texts of pages.
    Read { urls: Vec<String> },
    /// This is what the model sees, and the URLs of the pages.
    Finish { xml: String, urls: Vec<String> },
}

/// What an action stands for.
pub enum SearchDeed {
    List { limit: u32 },
    Read { urls: Seq<Seq<char>> },
    Finish { xml: Seq<char>, urls: Seq<Seq<char>> },
}

impl View for SearchAction {
    type V = SearchDeed;

    open spec fn view(&self) -> SearchDeed {
        match self {
            SearchAction::List { limit } => SearchDeed::List { limit: *limit },
            SearchAction::Read { urls } => SearchDeed::Read { urls: texts(urls@) },
            SearchAction::Finish { xml, urls } => SearchDeed::Finish { xml: xml@, urls: texts(urls@) },
        }
    }
}

/// The event can happen at this stage.
pub open spec fn search_expected(at: SearchAt, event: SearchEvent) -> bool {
    match at {
        SearchAt::Searching => event is Hits,
        SearchAt::Listing => event is Latest,
        SearchAt::Reading(_) => event is Bodies,
        SearchAt::Finished => false,
    }
}

/// What to do about an event. Where nothing is found, the pages visited last stand in; where
/// there are none either, the model sees nothing.
pub open spec fn search_next(k: u32, max_context_chars: usize, at: SearchAt, event: SearchEvent) -> (
    SearchAt,
    SearchDeed,
) {
    match (at, event) {
        (SearchAt::Searching, SearchEvent::Hits { by_meaning, by_words }) => {
            let merged = unique_sources(pairs(by_meaning@) + pairs(by_words@));
            if merged.len() == 0 {
                (SearchAt::Listing, SearchDeed::List { limit: k })
            } else {
                (SearchAt::Reading(merged), SearchDeed::Read { urls: urls_of(merged) })
            }
        },
        (SearchAt::Listing, SearchEvent::Latest(pages)) => if pages@.len() == 0 {
            (
                SearchAt::Finished,
                SearchDeed::Finish { xml: Seq::empty(), urls: Seq::empty() },
            )
        } else {
            (
                SearchAt::Reading(pairs(pages@)),
                SearchDeed::Read { urls: urls_of(pairs(pages@)) },
            )
        },
        (SearchAt::Reading(sources), SearchEvent::Bodies(bodies)) => (
            SearchAt::Finished,
            SearchDeed::Finish {
                xml: if sources.len() == 0 {
                    Seq::empty()
                } else {
                    sources_text(sources, pairs(bodies@), max_context_chars)
                },
                urls: urls_of(sources),
            },
        ),
        _ => (SearchAt::Finished, SearchDeed::Finish { xml: Seq::empty(), urls: Seq::empty() }),
    }
}

/// Nothing is what the model sees.
fn nothing_found() -> (r: (SearchStage, SearchAction))
    ensures
        (r.0@, r.1@) == (
            SearchAt::Finished,
            SearchDeed::Finish { xml: Seq::empty(), urls: Seq::empty() },
        ),
{
    let xml: String = String::new();
    assert(xml@ =~= Seq::empty());
    let urls: Vec<String> = Vec::new();
    assert(texts(urls@) =~= Seq::empty());
    (SearchStage::Finished, SearchAction::Finish { xml, urls })
}

/// Decides what to do about an event in a search on behalf of the model.
pub fn search_step(k: u32, max_context_chars: usize, stage: SearchStage, event: SearchEvent) -> (r: (
    SearchStage,
    SearchAction,
))
    requires
        search_expected(stage@, event),
    ensures
        (r.0@, r.1@) == search_next(k, max_context_chars, stage@, event),
{
    match (stage, event) {
        (SearchStage::Searching, SearchEvent::Hits { by_meaning, by_words }) => {
            let merged: Vec<(String, String)> = merge_sources(&by_meaning, &by_words);
            assert(pairs(merged@).len() == merged@.len());
            if merged.len() == 0 {
                (SearchStage::Listing, SearchAction::List { limit: k })
            } else {
                let urls: Vec<String> = source_urls(&merged);
                (SearchStage::Reading(merged), SearchAction::Read { urls })
            }
        },
        (SearchStage::Listing, SearchEvent::Latest(pages)) => {
            if pages.len() == 0 {
                nothing_found()
            } else {
                let urls: Vec<String> = source_urls(&pages);
                (SearchStage::Reading(pages), SearchAction::Read { urls })
            }
        },
        (SearchStage::Reading(sources), SearchEvent::Bodies(bodies)) => {
            assert(pairs(sources@).len() == sources@.len());
            let (xml, urls): (String, Vec<String>) = search_context(
                &sources,
                &bodies,
                max_context_chars,
            );
            (SearchStage::Finished, SearchAction::Finish { xml, urls })
        },
        _ => nothing_found(),
    }
}

/// A search ends in at most three steps, whatever is found.
pub proof fn law_every_search_comes_to_an_end(
    k: u32,
    max_context_chars: usize,
    at: SearchAt,
    event: SearchEvent,
)
    requires
        search_expected(at, event),
    ensures
        search_steps_left(search_next(k, max_context_chars, at, event).0) < search_steps_left(at),
{
}

/// How many steps may follow a stage.
pub open spec fn search_steps_left(at: SearchAt) -> nat {
    match at {
        SearchAt::Searching => 3,
        SearchAt::Listing => 2,
        SearchAt::Reading(_) => 1,
        SearchAt::Finished => 0,
    }
}

/// What two searches found: first what the one found by meaning, then what the other found by
/// words.
pub open spec fn hits_of(
    by_meaning: Seq<(String, String)>,
    by_words: Seq<(String, String)>,
) -> Seq<(Seq<char>, Seq<char>)> {
    Seq::new(
        by_meaning.len() + by_words.len(),
        |i: int|
            if i < by_meaning.len() {
                (by_meaning[i].0@, by_meaning[i].1@)
            } else {
                (by_words[i - by_meaning.len()].0@, by_words[i - by_meaning.len()].1@)
            },
    )
}

/// The pages with these URLs are what two searches found: every page that either of them found
/// is there, no other is, and each stands where it was first found.
pub open spec fn reads_all_hits(
    by_meaning: Seq<(String, String)>,
    by_words: Seq<(String, String)>,
    sources: Seq<(Seq<char>, Seq<char>)>,
    urls: Seq<Seq<char>>,
) -> bool {
    let all = hits_of(by_meaning, by_words);
    &&& forall|i: int| 0 <= i < by_meaning.len() ==> urls.contains((#[trigger] by_meaning[i]).0@)
    &&& forall|i: int| 0 <= i < by_words.len() ==> urls.contains((#[trigger] by_words[i]).0@)
    &&& forall|a: int|
        0 <= a < urls.len() ==> found_by_either(by_meaning, by_words, #[trigger] urls[a])
    &&& urls.no_duplicates()
    &&& urls.len() == sources.len()
    &&& forall|a: int| 0 <= a < urls.len() ==> #[trigger] urls[a] == sources[a].0
    &&& picked(
        all.len(),
        sources,
        |i: int| forall|k: int| 0 <= k < i ==> (#[trigger] all[k]).0 != all[i].0,
        |i: int| all[i],
    )
}

/// One of two searches found a page with this URL.
pub open spec fn found_by_either(
    by_meaning: Seq<(String, String)>,
    by_words: Seq<(String, String)>,
    url: Seq<char>,
) -> bool {
    ||| exists|i: int| 0 <= i < by_meaning.len() && (#[trigger] by_meaning[i]).0@ == url
    ||| exists|i: int| 0 <= i < by_words.len() && (#[trigger] by_words[i]).0@ == url
}

proof fn lemma_all_hits(by_meaning: Seq<(String, String)>, by_words: Seq<(String, String)>)
    ensures
        ({
            let sources = unique_sources(pairs(by_meaning) + pairs(by_words));
            &&& reads_all_hits(by_meaning, by_words, sources, urls_of(sources))
            &&& sources.len() == 0 <==> by_meaning.len() + by_words.len() == 0
        }),
{
    let all = hits_of(by_meaning, by_words);
    assert(pairs(by_meaning) + pairs(by_words) =~= all);
    let sources = unique_sources(all);
    let urls = urls_of(sources);
    law_every_url_counts_once(all);
    law_sources_keep_first_places(all);
    let chosen = |i: int| forall|k: int| 0 <= k < i ==> (#[trigger] all[k]).0 != all[i].0;
    let gives = |i: int| all[i];
    lemma_picked(all.len(), sources, chosen, gives);
    assert forall|i: int| 0 <= i < all.len() implies urls.contains((#[trigger] all[i]).0) by {
        assert(has_url(sources, all[i].0));
        let a = choose|a: int| 0 <= a < sources.len() && #[trigger] sources[a].0 == all[i].0;
        assert(urls[a] == all[i].0);
    }
    assert forall|i: int| 0 <= i < by_meaning.len() implies urls.contains(
        (#[trigger] by_meaning[i]).0@,
    ) by {
        assert(all[i].0 == by_meaning[i].0@);
    }
    assert forall|i: int| 0 <= i < by_words.len() implies urls.contains(
        (#[trigger] by_words[i]).0@,
    ) by {
        assert(all[by_meaning.len() + i].0 == by_words[i].0@);
    }
    assert forall|a: int| 0 <= a < urls.len() implies found_by_either(
        by_meaning,
        by_words,
        #[trigger] urls[a],
    ) by {
        assert(given_by(all.len(), sources[a], chosen, gives));
        let i = choose|i: int| 0 <= i < all.len() && #[trigger] chosen(i) && sources[a] == gives(i);
        if i < by_meaning.len() {
            assert(by_meaning[i].0@ == urls[a]);
        } else {
            assert(by_words[i - by_meaning.len()].0@ == urls[a]);
        }
    }
    if all.len() > 0 {
        assert(urls.contains(all[0].0));
    }
}

/// A question without given sources is answered from every page that was found by meaning and
/// every page that was found by words, those found by meaning first. Where there is none, it is
/// not answered.
pub proof fn law_an_answer_rests_on_every_page_found(
    question: Question,
    by_meaning: Vec<(String, String)>,
    by_words: Vec<(String, String)>,
)
    ensures
        ({
            let (next, deed) = ask_next(
                question,
                AskAt::Searching,
                AskEvent::Hits { by_meaning, by_words },
            );
            if by_meaning@.len() + by_words@.len() == 0 {
                next is Finished && deed is NoSources
            } else {
                &&& next is Reading
                &&& deed is Read
                &&& reads_all_hits(by_meaning@, by_words@, next->Reading_0, deed->Read_urls)
            }
        }),
{
    lemma_all_hits(by_meaning@, by_words@);
}

/// A search on behalf of the model is of every page that was found by meaning and every page that
/// was found by words. Where there is none, as many of the pages visited last are asked for as
/// were looked for, and all that come are read.
pub proof fn law_the_model_sees_every_page_found(
    k: u32,
    max_context_chars: usize,
    by_meaning: Vec<(String, String)>,
    by_words: Vec<(String, String)>,
    latest: Vec<(String, String)>,
)
    ensures
        ({
            let (next, deed) = search_next(
                k,
                max_context_chars,
                SearchAt::Searching,
                SearchEvent::Hits { by_meaning, by_words },
            );
            if by_meaning@.len() + by_words@.len() == 0 {
                next is Listing && deed == (SearchDeed::List { limit: k })
            } else {
                &&& next is Reading
                &&& deed is Read
                &&& reads_all_hits(by_meaning@, by_words@, next->Reading_0, deed->Read_urls)
            }
        }),
        ({
            let (next, deed) = search_next(
                k,
                max_context_chars,
                SearchAt::Listing,
                SearchEvent::Latest(latest),
            );
            if latest@.len() == 0 {
                next is Finished && deed is Finish && deed->xml.len() == 0 && deed->Finish_urls.len()
                    == 0
            } else {
                &&& next is Reading
                &&& deed is Read
                &&& next->Reading_0.len() == latest@.len()
                &&& deed->Read_urls.len() == latest@.len()
                &&& forall|i: int|
                    0 <= i < latest@.len() ==> #[trigger] deed->Read_urls[i] == latest@[i].0@
                &&& forall|i: int|
                    0 <= i < latest@.len() ==> #[trigger] next->Reading_0[i] == (
                        latest@[i].0@,
                        latest@[i].1@,
                    )
            }
        }),
{
    lemma_all_hits(by_meaning@, by_words@);
}

/// The first characters of a text, an even part of what all sources together may show, or the
/// whole text where it is shorter.
pub open spec fn is_shown_part(
    shown: Seq<char>,
    body: Seq<char>,
    max_context_chars: usize,
    sources: nat,
) -> bool {
    &&& shown.len() <= body.len()
    &&& shown == body.take(shown.len() as int)
    &&& shown.len() == body.len() || shown.len() == max_context_chars as nat / sources
    &&& shown.len() * sources <= max_context_chars
}

/// A text holds a source with its number, its URL, its title and the start of its text.
pub open spec fn shows_source(
    text: Seq<char>,
    number: nat,
    source: (Seq<char>, Seq<char>),
    shown: Seq<char>,
) -> bool {
    contains_text(
        text,
        "<source index=\""@ + decimal(number) + "\">\n<url>"@ + xml_escaped(source.0)
            + "</url>\n<title>"@ + xml_escaped(source.1) + "</title>\n<content>"@ + xml_escaped(
            shown,
        ) + "</content>\n</source>"@,
    )
}

proof fn lemma_sources_are_shown(
    sources: Seq<(Seq<char>, Seq<char>)>,
    bodies: Seq<(Seq<char>, Seq<char>)>,
    max_context_chars: usize,
    i: int,
)
    requires
        0 <= i < sources.len(),
    ensures
        exists|shown: Seq<char>|
            is_shown_part(
                shown,
                body_for(bodies, sources[i].0),
                max_context_chars,
                sources.len(),
            ) && #[trigger] shows_source(
                sources_text(sources, bodies, max_context_chars),
                (i + 1) as nat,
                sources[i],
                shown,
            ),
{
    let n = sources.len();
    let part = share(max_context_chars, n);
    let body = body_for(bodies, sources[i].0);
    let shown = at_most(body, part);
    let parts = source_parts(sources, bodies, part);
    law_the_context_is_bounded(max_context_chars, n);
    assert(shown =~= body.take(shown.len() as int));
    assert(shown.len() * n <= part * n) by (nonlinear_arith)
        requires
            shown.len() <= part,
    ;
    law_joined_texts_are_there(parts, "\n"@, i);
    assert(shows_source(
        sources_text(sources, bodies, max_context_chars),
        (i + 1) as nat,
        sources[i],
        shown,
    ));
}

/// The model is handed the question at the end of its prompt, behind every source: its number,
/// its URL, its title, and the start of the text that was read last for that URL. It is told the
/// date and the instructions in force.
pub proof fn law_the_model_is_handed_every_source(
    question: Question,
    sources: Seq<(Seq<char>, Seq<char>)>,
    bodies: Vec<(String, String)>,
    i: int,
)
    requires
        0 <= i < sources.len(),
    ensures
        ({
            let (next, deed) = ask_next(question, AskAt::Reading(sources), AskEvent::Bodies(bodies));
            &&& next == AskAt::Thinking(sources)
            &&& deed is Think
            &&& has_suffix(deed->prompt, "Question: "@ + question.q@)
            &&& exists|shown: Seq<char>|
                is_shown_part(
                    shown,
                    body_for(pairs(bodies@), sources[i].0),
                    question.max_context_chars,
                    sources.len(),
                ) && #[trigger] shows_source(deed->prompt, (i + 1) as nat, sources[i], shown)
            &&& contains_text(deed->system, question.date@)
            &&& has_suffix(
                deed->system,
                if question.system_prompt is Some {
                    question.system_prompt->0@
                } else {
                    SYSTEM_PROMPT_TEMPLATE@
                },
            )
        }),
{
    let (next, deed) = ask_next(question, AskAt::Reading(sources), AskEvent::Bodies(bodies));
    let b = pairs(bodies@);
    lemma_sources_are_shown(sources, b, question.max_context_chars, i);
    let text = sources_text(sources, b, question.max_context_chars);
    let shown = choose|shown: Seq<char>|
        is_shown_part(
            shown,
            body_for(b, sources[i].0),
            question.max_context_chars,
            sources.len(),
        ) && #[trigger] shows_source(text, (i + 1) as nat, sources[i], shown);
    let part = "<source index=\""@ + decimal((i + 1) as nat) + "\">\n<url>"@ + xml_escaped(
        sources[i].0,
    ) + "</url>\n<title>"@ + xml_escaped(sources[i].1) + "</title>\n<content>"@ + xml_escaped(shown)
        + "</content>\n</source>"@;
    let before = "<information>\n"@;
    let behind = "\n</information>\n\nQuestion: "@;
    lemma_stands_within(before, text, behind + question.q@, part);
    assert(before + text + (behind + question.q@) =~= deed->prompt);
    assert(shows_source(deed->prompt, (i + 1) as nat, sources[i], shown));
    reveal_strlit("\n</information>\n\nQuestion: ");
    reveal_strlit("Question: ");
    let ending = "Question: "@ + question.q@;
    let at = deed->prompt.len() - ending.len();
    assert(deed->prompt.subrange(at, at + ending.len()) =~= ending);
    let template = template_or_default(question.system_prompt);
    lemma_stands_between("The current date is "@, question.date@, ".\n"@ + template);
    assert("The current date is "@ + question.date@ + (".\n"@ + template) =~= deed->system);
    let from = deed->system.len() - template.len();
    assert(deed->system.subrange(from, from + template.len()) =~= template);
}

/// A question with given sources is answered from exactly these, in their order; one without is
/// first looked for, by its own words and for as many pages as asked.
pub proof fn law_given_sources_are_taken(question: Question)
    ensures
        ({
            let (next, deed) = ask_next(question, AskAt::Begin, AskEvent::Started);
            let given = question.given@;
            if given.len() == 0 {
                next is Searching && deed == (AskDeed::Search { q: question.q@, k: question.k })
            } else {
                &&& next is Reading
                &&& deed is Read
                &&& next->Reading_0.len() == given.len()
                &&& deed->Read_urls.len() == given.len()
                &&& forall|i: int|
                    0 <= i < given.len() ==> #[trigger] next->Reading_0[i] == (
                        given[i].url@,
                        given[i].title@,
                    )
                &&& forall|i: int|
                    0 <= i < given.len() ==> #[trigger] deed->Read_urls[i] == given[i].url@
            }
        }),
{
}

/// What the model answers is the answer, with all sources that it was handed; where it fails, the
/// failure is told.
pub proof fn law_the_answer_is_what_the_model_says(
    question: Question,
    sources: Seq<(Seq<char>, Seq<char>)>,
    said: String,
)
    ensures
        ask_next(question, AskAt::Thinking(sources), AskEvent::Answer(said)) == (
            AskAt::Finished,
            AskDeed::Finish { answer: said@, sources },
        ),
        ask_next(question, AskAt::Thinking(sources), AskEvent::Failed(said)) == (
            AskAt::Finished,
            AskDeed::Refuse(said@),
        ),
{
}

/// What a search on behalf of the model gives shows every page that was read, and names them all.
pub proof fn law_the_model_sees_what_was_read(
    k: u32,
    max_context_chars: usize,
    sources: Seq<(Seq<char>, Seq<char>)>,
    bodies: Vec<(String, String)>,
    i: int,
)
    requires
        0 <= i < sources.len(),
    ensures
        ({
            let (next, deed) = search_next(
                k,
                max_context_chars,
                SearchAt::Reading(sources),
                SearchEvent::Bodies(bodies),
            );
            &&& next is Finished
            &&& deed is Finish
            &&& deed->Finish_urls.len() == sources.len()
            &&& deed->Finish_urls[i] == sources[i].0
            &&& exists|shown: Seq<char>|
                is_shown_part(
                    shown,
                    body_for(pairs(bodies@), sources[i].0),
                    max_context_chars,
                    sources.len(),
                ) && #[trigger] shows_source(deed->xml, (i + 1) as nat, sources[i], shown)
        }),
{
    let (next, deed) = search_next(
        k,
        max_context_chars,
        SearchAt::Reading(sources),
        SearchEvent::Bodies(bodies),
    );
    let b = pairs(bodies@);
    lemma_sources_are_shown(sources, b, max_context_chars, i);
    let text = sources_text(sources, b, max_context_chars);
    let shown = choose|shown: Seq<char>|
        is_shown_part(shown, body_for(b, sources[i].0), max_context_chars, sources.len())
            && #[trigger] shows_source(text, (i + 1) as nat, sources[i], shown);
    assert(deed->xml == text);
    assert(shows_source(deed->xml, (i + 1) as nat, sources[i], shown));
}

} // verus!
