//! Questions and conversations: what the model is asked, and what is answered.

use vstd::prelude::*;
use vstd::string::*;

use crate::json::{Json, Tree};
use crate::lists::{lemma_picked_none, lemma_picked_one_more, picked, push_text};
use crate::order::first_n;
use crate::rag::context::{
    dated, merge_sources, question_prompt, question_system_prompt, question_text, source_urls,
    sources_text, sources_xml, template_or_default, unique_sources, urls_of,
};
use crate::rag::AskResponse;
use crate::server::{AskSource, ChatReply, ChatToolCall, ChatTurn};
use crate::session_log::LogKind;
use crate::sync::{Line, LogLine};
use crate::text::{at_most, join, joined, opt, pairs, same_text, take_chars, texts};

verus! {

/// A text in Markdown as HTML, as `pulldown_cmark` writes it, with or without struck-out words and
/// tables.
pub uninterp spec fn html_with(md: Seq<char>, struck: bool, tables: bool) -> Seq<char>;

/// Writes a text in Markdown as HTML, with or without struck-out words and tables.
///
/// Calls `pulldown_cmark::Parser::new_ext`, with the two options set as asked and no other, and
/// `pulldown_cmark::html::push_html`. Claimed: the result depends on the text and on the two
/// options alone.
#[verifier::external_body]
fn write_html(md: &str, struck: bool, tables: bool) -> (r: String)
    ensures
        r@ == html_with(md@, struck, tables),
{
    let mut opts = pulldown_cmark::Options::empty();
    opts.set(pulldown_cmark::Options::ENABLE_STRIKETHROUGH, struck);
    opts.set(pulldown_cmark::Options::ENABLE_TABLES, tables);
    let mut out = String::new();
    pulldown_cmark::html::push_html(&mut out, pulldown_cmark::Parser::new_ext(md, opts));
    out
}

/// An answer in Markdown as HTML: with struck-out words and with tables.
pub open spec fn html_of(md: Seq<char>) -> Seq<char> {
    html_with(md, true, true)
}

/// Writes an answer in Markdown as HTML.
pub fn markdown_to_html(md: &str) -> (r: String)
    ensures
        r@ == html_of(md@),
{
    write_html(md, true, true)
}

/// The pages that an answer is to rest on.
pub open spec fn given_sources(list: Seq<AskSource>) -> Seq<(Seq<char>, Seq<char>)> {
    list.map_values(|s: AskSource| (s.url@, s.title@))
}

/// The pages that an answer rests on: those that are given, or those that are found by meaning
/// and by words.
pub fn ask_sources(
    given: &Vec<AskSource>,
    by_meaning: &Vec<(String, String)>,
    by_words: &Vec<(String, String)>,
) -> (r: Vec<(String, String)>)
    ensures
        pairs(r@) == if given@.len() > 0 {
            given_sources(given@)
        } else {
            unique_sources(pairs(by_meaning@) + pairs(by_words@))
        },
{
    if given.len() == 0 {
        return merge_sources(by_meaning, by_words);
    }
    let mut out: Vec<(String, String)> = Vec::new();
    let mut i: usize = 0;
    while i < given.len()
        invariant
            i <= given@.len(),
            out@.len() == i,
            forall|k: int|
                0 <= k < i ==> (#[trigger] out@[k]).0@ == given@[k].url@ && out@[k].1@
                    == given@[k].title@,
        decreases given@.len() - i,
    {
        out.push((given[i].url.clone(), given[i].title.clone()));
        i = i + 1;
    }
    assert(pairs(out@) =~= given_sources(given@));
    out
}

/// What an answer stands for: its text, and the URLs of its sources.
pub open spec fn answered(r: AskResponse) -> (Seq<char>, Seq<Seq<char>>) {
    (r.answer@, texts(r.sources@))
}

/// The answer where no page was found, and the line that logs it.
pub fn no_sources(q: &str) -> (r: (AskResponse, LogLine))
    ensures
        answered(r.0) == ("No relevant pages found."@, Seq::<Seq<char>>::empty()),
        r.1@ == (Line {
            kind: LogKind::Llm,
            message: q@,
            detail: Some("No relevant pages found"@),
        }),
{
    let answer = AskResponse {
        answer: "No relevant pages found.".to_owned(),
        sources: Vec::new(),
    };
    assert(texts(answer.sources@) =~= Seq::empty());
    (
        answer,
        LogLine {
            kind: LogKind::Llm,
            message: q.to_owned(),
            detail: Some("No relevant pages found".to_owned()),
        },
    )
}

/// What the model is asked, and what it is told before: the question with the sources, and the
/// instructions with the date.
pub fn ask_prompts(
    q: &str,
    sources: &Vec<(String, String)>,
    bodies: &Vec<(String, String)>,
    max_context_chars: usize,
    system_prompt: &Option<String>,
    date: &str,
) -> (r: (String, String))
    ensures
        r.0@ == question_text(
            sources_text(pairs(sources@), pairs(bodies@), max_context_chars),
            q@,
        ),
        r.1@ == dated(date@, template_or_default(*system_prompt)),
{
    let xml: String = sources_xml(sources, bodies, max_context_chars);
    (question_prompt(xml.as_str(), q), question_system_prompt(date, system_prompt))
}

/// The first three sources, as they are logged.
pub open spec fn source_preview(urls: Seq<Seq<char>>) -> Seq<char> {
    joined(first_n(urls, 3), ", "@)
}

/// How an answer is logged: its first 300 characters, and the first three sources.
pub open spec fn answer_detail(answer_md: Seq<char>, urls: Seq<Seq<char>>) -> Seq<char> {
    at_most(answer_md, 300) + "\n\nSources: "@ + source_preview(urls)
}

/// How an answer is logged.
fn detail_of(answer_md: &str, urls: &Vec<String>) -> (r: String)
    ensures
        r@ == answer_detail(answer_md@, texts(urls@)),
{
    let mut first: Vec<String> = Vec::new();
    let mut i: usize = 0;
    let ghost all = texts(urls@);
    assert(all.len() == urls@.len());
    while i < urls.len() && i < 3
        invariant
            i <= urls@.len(),
            i <= 3,
            all == texts(urls@),
            first@.len() == i,
            forall|k: int| 0 <= k < i ==> (#[trigger] first@[k])@ == all[k],
        decreases urls@.len() - i,
    {
        first.push(urls[i].clone());
        i = i + 1;
    }
    assert(texts(first@) =~= first_n(all, 3));
    let mut out: String = take_chars(answer_md, 300).to_owned();
    out.append("\n\nSources: ");
    out.append(join(&first, ", ").as_str());
    out
}

/// The answer of the model with its sources, and the line that logs it.
pub fn ask_answer(q: &str, answer_md: String, sources: &Vec<(String, String)>) -> (r: (
    AskResponse,
    LogLine,
))
    ensures
        answered(r.0) == (answer_md@, urls_of(pairs(sources@))),
        r.1@ == (Line {
            kind: LogKind::Llm,
            message: q@,
            detail: Some(answer_detail(answer_md@, urls_of(pairs(sources@)))),
        }),
{
    let urls: Vec<String> = source_urls(sources);
    let detail: String = detail_of(answer_md.as_str(), &urls);
    (
        AskResponse { answer: answer_md, sources: urls },
        LogLine { kind: LogKind::Llm, message: q.to_owned(), detail: Some(detail) },
    )
}

/// The line that logs a failure of the model.
pub fn ask_failure(q: &str, error: String) -> (r: LogLine)
    ensures
        r@ == (Line {
            kind: LogKind::Error,
            message: "LLM error for query: "@ + q@,
            detail: Some(error@),
        }),
{
    let mut message: String = "LLM error for query: ".to_owned();
    message.append(q);
    LogLine { kind: LogKind::Error, message, detail: Some(error) }
}

/// The last message of the user in a conversation.
pub open spec fn last_from_user(turns: Seq<ChatTurn>) -> Option<Seq<char>>
    decreases turns.len(),
{
    if turns.len() == 0 {
        None
    } else if turns.last().role@ == "user"@ {
        Some(turns.last().content@)
    } else {
        last_from_user(turns.drop_last())
    }
}

/// The last message of the user in a conversation; a conversation without one is refused.
pub fn last_user(turns: &Vec<ChatTurn>) -> (r: Option<String>)
    ensures
        opt(r) == last_from_user(turns@),
{
    let mut i: usize = turns.len();
    assert(turns@.take(turns@.len() as int) =~= turns@);
    while i > 0
        invariant
            i <= turns@.len(),
            last_from_user(turns@) == last_from_user(turns@.take(i as int)),
        decreases i,
    {
        let ghost t = turns@.take(i as int);
        assert(t.last() == turns@[i - 1]);
        assert(t.drop_last() =~= turns@.take(i - 1));
        if same_text(turns[i - 1].role.as_str(), "user") {
            return Some(turns[i - 1].content.clone());
        }
        i = i - 1;
    }
    None
}

/// A conversation as roles and contents.
pub open spec fn spoken(turns: Seq<ChatTurn>) -> Seq<(Seq<char>, Seq<char>)> {
    Seq::new(turns.len(), |i: int| (turns[i].role@, turns[i].content@))
}

/// A conversation as roles and contents.
pub fn chat_history(turns: &Vec<ChatTurn>) -> (r: Vec<(String, String)>)
    ensures
        pairs(r@) == spoken(turns@),
{
    let mut out: Vec<(String, String)> = Vec::new();
    let mut i: usize = 0;
    while i < turns.len()
        invariant
            i <= turns@.len(),
            out@.len() == i,
            forall|k: int|
                0 <= k < i ==> (#[trigger] out@[k]).0@ == turns@[k].role@ && out@[k].1@
                    == turns@[k].content@,
        decreases turns@.len() - i,
    {
        out.push((turns[i].role.clone(), turns[i].content.clone()));
        i = i + 1;
    }
    assert(pairs(out@) =~= spoken(turns@));
    out
}

/// What a tool does in a conversation.
pub enum ToolUse {
    /// It searches the history.
    Search(String),
    /// It reads a page.
    Page(String),
    /// There is no such tool: its result is empty.
    Nothing,
}

/// What a tool is called with: the query, the URL, or nothing for an unknown tool.
pub open spec fn tool_arg(name: Seq<char>, args: Tree) -> Seq<char> {
    if name == "search_history"@ {
        args.text_or("query"@, ""@)
    } else if name == "get_page"@ {
        args.text_or("url"@, ""@)
    } else {
        Seq::empty()
    }
}

/// What a tool does, and how its call is shown.
pub fn tool_use(name: &str, args: &Json) -> (r: (ToolUse, ChatToolCall))
    ensures
        match r.0 {
            ToolUse::Search(q) => name@ == "search_history"@ && q@ == tool_arg(name@, args.tree()),
            ToolUse::Page(url) => name@ == "get_page"@ && url@ == tool_arg(name@, args.tree()),
            ToolUse::Nothing => name@ != "search_history"@ && name@ != "get_page"@,
        },
        r.1.tool@ == name@,
        r.1.arg@ == tool_arg(name@, args.tree()),
{
    proof {
        reveal_strlit("search_history");
        reveal_strlit("get_page");
        assert("search_history"@.len() != "get_page"@.len());
    }
    if same_text(name, "search_history") {
        let q: String = args.text_or("query", "").to_owned();
        (ToolUse::Search(q.clone()), ChatToolCall { tool: name.to_owned(), arg: q })
    } else if same_text(name, "get_page") {
        let u: String = args.text_or("url", "").to_owned();
        (ToolUse::Page(u.clone()), ChatToolCall { tool: name.to_owned(), arg: u })
    } else {
        let none: String = String::new();
        assert(none@ =~= Seq::empty());
        (ToolUse::Nothing, ChatToolCall { tool: name.to_owned(), arg: none })
    }
}

/// A list without entries that repeat the one before.
pub open spec fn deduped(list: Seq<Seq<char>>) -> Seq<Seq<char>>
    decreases list.len(),
{
    if list.len() == 0 {
        Seq::empty()
    } else {
        let before = deduped(list.drop_last());
        if before.len() > 0 && before.last() == list.last() {
            before
        } else {
            before.push(list.last())
        }
    }
}

/// A list without entries that repeat the one before.
pub fn dedup(list: &Vec<String>) -> (r: Vec<String>)
    ensures
        texts(r@) == deduped(texts(list@)),
{
    let ghost all = texts(list@);
    let mut out: Vec<String> = Vec::new();
    let mut i: usize = 0;
    assert(texts(out@) =~= deduped(all.take(0)));
    while i < list.len()
        invariant
            i <= list@.len(),
            all == texts(list@),
            texts(out@) == deduped(all.take(i as int)),
        decreases list@.len() - i,
    {
        let ghost t = all.take(i as int + 1);
        assert(t.drop_last() =~= all.take(i as int));
        assert(t.last() == list@[i as int]@);
        assert(texts(out@).len() == out@.len());
        let n: usize = out.len();
        let again: bool = if n > 0 {
            assert(texts(out@).last() == out@[n - 1]@);
            same_text(out[n - 1].as_str(), list[i].as_str())
        } else {
            false
        };
        if !again {
            push_text(&mut out, list[i].as_str());
        }
        i = i + 1;
    }
    assert(all.take(all.len() as int) =~= all);
    out
}

/// No entry of such a list repeats the one before.
pub proof fn law_no_source_repeats_the_one_before(list: Seq<Seq<char>>)
    ensures
        forall|i: int|
            0 < i < deduped(list).len() ==> differs(deduped(list), i),
        list.len() > 0 ==> deduped(list).len() > 0 && deduped(list).last() == list.last(),
    decreases list.len(),
{
    if list.len() > 0 {
        law_no_source_repeats_the_one_before(list.drop_last());
        let before = deduped(list.drop_last());
        let now = deduped(list);
        assert forall|i: int| 0 < i < now.len() implies differs(now, i) by {
            if i < before.len() {
                assert(differs(before, i));
            }
        }
    }
}

/// An entry of a list differs from the one before.
pub open spec fn differs(list: Seq<Seq<char>>, i: int) -> bool {
    list[i] != list[i - 1]
}

/// Leaving out entries that repeat the one before loses no entry and brings none in.
pub proof fn law_every_source_is_named(list: Seq<Seq<char>>, url: Seq<char>)
    ensures
        deduped(list).contains(url) == list.contains(url),
    decreases list.len(),
{
    if list.len() > 0 {
        law_every_source_is_named(list.drop_last(), url);
        let before = deduped(list.drop_last());
        let now = deduped(list);
        if list.drop_last().contains(url) {
            let i = choose|i: int| 0 <= i < before.len() && before[i] == url;
            assert(now[i] == url);
            let j = choose|j: int| 0 <= j < list.drop_last().len() && list.drop_last()[j] == url;
            assert(list[j] == url);
        }
        law_no_source_repeats_the_one_before(list);
        if list.last() == url {
            assert(now[now.len() - 1] == url);
            assert(list[list.len() - 1] == url);
        } else if now.contains(url) {
            let i = choose|i: int| 0 <= i < now.len() && now[i] == url;
            assert(i < before.len());
            assert(before[i] == url);
        } else if list.contains(url) {
            let j = choose|j: int| 0 <= j < list.len() && list[j] == url;
            assert(list.drop_last()[j] == url);
        }
    }
}

/// The calls of tools as they are shown: the tool, and what it was called with.
pub open spec fn shown_calls(list: Seq<ChatToolCall>) -> Seq<(Seq<char>, Seq<char>)> {
    list.map_values(|c: ChatToolCall| (c.tool@, c.arg@))
}

/// What an answer stands for.
#[verifier::ext_equal]
pub struct Answer {
    pub html: Seq<char>,
    pub md: Seq<char>,
    pub sources: Seq<Seq<char>>,
    pub calls: Seq<(Seq<char>, Seq<char>)>,
}

impl View for ChatReply {
    type V = Answer;

    open spec fn view(&self) -> Answer {
        Answer {
            html: self.answer@,
            md: self.answer_md@,
            sources: texts(self.sources@),
            calls: shown_calls(self.tool_calls@),
        }
    }
}

/// The reply in a conversation, from how it is shown, and the line that logs it: its sources are
/// those found for the message and those that tools found.
pub fn chat_reply_of(
    last: &str,
    answer: String,
    answer_md: String,
    found: Vec<String>,
    by_tools: Vec<String>,
    tool_calls: Vec<ChatToolCall>,
) -> (r: (ChatReply, LogLine))
    ensures
        ({
            let urls = deduped(texts(found@) + texts(by_tools@));
            &&& r.0@ == (Answer {
                html: answer@,
                md: answer_md@,
                sources: urls,
                calls: shown_calls(tool_calls@),
            })
            &&& r.1@ == (Line {
                kind: LogKind::Llm,
                message: last@,
                detail: Some(answer_detail(answer_md@, urls)),
            })
        }),
{
    let ghost a = found@;
    let ghost b = by_tools@;
    let mut all: Vec<String> = found;
    let mut more: Vec<String> = by_tools;
    all.append(&mut more);
    assert(texts(all@) =~= texts(a) + texts(b));
    let sources: Vec<String> = dedup(&all);
    let detail: String = detail_of(answer_md.as_str(), &sources);
    (
        ChatReply { answer, answer_md, sources, tool_calls },
        LogLine { kind: LogKind::Llm, message: last.to_owned(), detail: Some(detail) },
    )
}

/// The reply in a conversation, and the line that logs it.
pub fn chat_reply(
    last: &str,
    answer_md: String,
    found: Vec<String>,
    by_tools: Vec<String>,
    tool_calls: Vec<ChatToolCall>,
) -> (r: (ChatReply, LogLine))
    ensures
        ({
            let urls = deduped(texts(found@) + texts(by_tools@));
            &&& r.0@ == (Answer {
                html: html_of(answer_md@),
                md: answer_md@,
                sources: urls,
                calls: shown_calls(tool_calls@),
            })
            &&& r.1@ == (Line {
                kind: LogKind::Llm,
                message: last@,
                detail: Some(answer_detail(answer_md@, urls)),
            })
        }),
{
    let answer: String = markdown_to_html(answer_md.as_str());
    chat_reply_of(last, answer, answer_md, found, by_tools, tool_calls)
}

/// The tool calls that a conversation begins with: the search for its last message, where that
/// found anything.
pub fn first_tool_calls(last: &str, found: &str) -> (r: Vec<ChatToolCall>)
    ensures
        r@.len() == if found@.len() == 0 {
            0nat
        } else {
            1
        },
        r@.len() == 1 ==> r@[0].tool@ == "search_history"@ && r@[0].arg@ == last@,
{
    let mut r: Vec<ChatToolCall> = Vec::new();
    if found.unicode_len() > 0 {
        r.push(ChatToolCall { tool: "search_history".to_owned(), arg: last.to_owned() });
    }
    r
}

/// The message that is answered is the last one by the user, whatever comes behind it.
pub proof fn law_the_last_turn_by_the_user_counts(turns: Seq<ChatTurn>)
    ensures
        match last_from_user(turns) {
            Some(said) => exists|i: int|
                0 <= i < turns.len() && (#[trigger] turns[i]).role@ == "user"@ && turns[i].content@
                    == said && forall|k: int|
                    i < k < turns.len() ==> (#[trigger] turns[k]).role@ != "user"@,
            None => forall|i: int| 0 <= i < turns.len() ==> (#[trigger] turns[i]).role@ != "user"@,
        },
    decreases turns.len(),
{
    if turns.len() > 0 {
        let n = turns.len() - 1;
        if turns.last().role@ == "user"@ {
            assert(turns[n].role@ == "user"@);
        } else {
            let init = turns.drop_last();
            law_the_last_turn_by_the_user_counts(init);
            match last_from_user(turns) {
                Some(said) => {
                    let i = choose|i: int|
                        0 <= i < init.len() && (#[trigger] init[i]).role@ == "user"@
                            && init[i].content@ == said && forall|k: int|
                            i < k < init.len() ==> (#[trigger] init[k]).role@ != "user"@;
                    assert(turns[i].role@ == "user"@);
                    assert forall|k: int| i < k < turns.len() implies (#[trigger] turns[k]).role@
                        != "user"@ by {
                        if k < n {
                            assert(init[k].role@ != "user"@);
                        }
                    }
                },
                None => {
                    assert forall|i: int| 0 <= i < turns.len() implies (#[trigger] turns[i]).role@
                        != "user"@ by {
                        if i < n {
                            assert(init[i].role@ != "user"@);
                        }
                    }
                },
            }
        }
    }
}

/// The list of sources has every text that differs from the one before it, in its order.
pub proof fn law_sources_stay_but_for_repetitions(list: Seq<Seq<char>>)
    ensures
        picked(
            list.len(),
            deduped(list),
            |i: int| i == 0 || list[i] != list[i - 1],
            |i: int| list[i],
        ),
        list.len() > 0 ==> deduped(list).len() > 0 && deduped(list).last() == list.last(),
    decreases list.len(),
{
    let chosen = |i: int| i == 0 || list[i] != list[i - 1];
    let gives = |i: int| list[i];
    if list.len() == 0 {
        lemma_picked_none(chosen, gives);
    } else {
        let init = list.drop_last();
        law_sources_stay_but_for_repetitions(init);
        let n = init.len() as int;
        if n > 0 {
            assert(init.last() == list[n - 1]);
        }
        lemma_picked_one_more(
            init.len(),
            deduped(init),
            |i: int| i == 0 || init[i] != init[i - 1],
            |i: int| init[i],
            deduped(list),
            chosen,
            gives,
        );
    }
}

/// The log of an answer holds its first three hundred characters and its first three sources.
pub proof fn law_the_log_of_an_answer(answer_md: Seq<char>, urls: Seq<Seq<char>>)
    ensures
        ({
            let shown = answer_detail(answer_md, urls);
            let n = if answer_md.len() < 300 {
                answer_md.len()
            } else {
                300
            };
            let m = if urls.len() < 3 {
                urls.len()
            } else {
                3
            };
            shown == answer_md.take(n as int) + "\n\nSources: "@ + joined(urls.take(m as int), ", "@)
        }),
{
    if answer_md.len() < 300 {
        assert(answer_md.take(answer_md.len() as int) =~= answer_md);
    }
    if urls.len() <= 3 {
        assert(urls.take(urls.len() as int) =~= urls);
    }
}

} // verus!
