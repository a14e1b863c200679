//! The course of an answer in a conversation: a search for the last message, and then a talk with
//! the model, which may call tools.

use vstd::prelude::*;
use vstd::string::*;

use crate::json::{Json, Tree};
use crate::rag::context::{chat_instructions, chat_system_prompt, dated, CHAT_SYSTEM_PROMPT};
use crate::rag::talk::{
    calls_left, law_conversations_begin, law_conversations_end, replies_left, request_tree,
    talk_begin, talk_expected, talk_next, talk_ready, talk_start, talk_step, Heard, TalkAction,
    TalkAt, TalkDeed, TalkEvent, TalkStage,
};
use crate::rag::tools::{history_trees, message_tree, MAX_ROUNDS};
use crate::rag::LlmClient;
use crate::server::answers::{
    answer_detail, chat_history, chat_reply, deduped, first_tool_calls, html_of, last_from_user,
    last_user, law_every_source_is_named, shown_calls, spoken, tool_arg, tool_use, Answer, ToolUse,
};
use crate::server::{ChatReply, ChatToolCall, ChatTurn};
use crate::session_log::LogKind;
use crate::sync::{Line, LogLine};
use crate::text::{contains_text, lemma_stands_between, lemma_stands_within, pairs, texts};

verus! {

/// A message that is to be answered.
pub struct ChatQuestion {
    /// The conversation so far.
    pub turns: Vec<ChatTurn>,
    /// How many pages are looked for.
    pub k: u32,
    /// The date of today.
    pub date: String,
}

/// How far the answer has come.
pub enum ChatStage {
    /// Nothing is done yet.
    Begin,
    /// Pages are being looked for that have to do with the last message.
    Searching(String),
    /// The model is being talked to.
    Talking {
        last: String,
        /// The URLs of the pages that have to do with the last message.
        found: Vec<String>,
        /// The tools that were called so far.
        calls: Vec<ChatToolCall>,
        system: String,
        talk: TalkStage,
    },
    /// Everything is done.
    Finished,
}

/// What a stage stands for.
pub enum ChatAt {
    Begin,
    Searching(Seq<char>),
    Talking {
        last: Seq<char>,
        found: Seq<Seq<char>>,
        calls: Seq<(Seq<char>, Seq<char>)>,
        system: Seq<char>,
        talk: TalkAt,
    },
    Finished,
}

impl View for ChatStage {
    type V = ChatAt;

    open spec fn view(&self) -> ChatAt {
        match self {
            ChatStage::Begin => ChatAt::Begin,
            ChatStage::Searching(last) => ChatAt::Searching(last@),
            ChatStage::Talking { last, found, calls, system, talk } => ChatAt::Talking {
                last: last@,
                found: texts(found@),
                calls: shown_calls(calls@),
                system: system@,
                talk: talk@,
            },
            ChatStage::Finished => ChatAt::Finished,
        }
    }
}

/// What happened.
pub enum ChatEvent {
    Started,
    /// The search for the last message found this; nothing where it failed.
    Found { xml: String, urls: Vec<String> },
    /// Something happened in the talk with the model.
    Talk(TalkEvent),
}

/// What an event stands for.
pub enum ChatHeard {
    Started,
    Found { xml: Seq<char>, urls: Seq<Seq<char>> },
    Talk(Heard),
}

impl View for ChatEvent {
    type V = ChatHeard;

    open spec fn view(&self) -> ChatHeard {
        match self {
            ChatEvent::Started => ChatHeard::Started,
            ChatEvent::Found { xml, urls } => ChatHeard::Found { xml: xml@, urls: texts(urls@) },
            ChatEvent::Talk(e) => ChatHeard::Talk(e@),
        }
    }
}

/// What to do next.
pub enum ChatAction {
    /// There is no message to answer.
    BadRequest,
    /// Look for pages.
    Search { query: String, k: u32 },
    /// Send a request to the model.
    Post(Json),
    /// Use a tool.
    Use(ToolUse),
    /// This is the answer, and the line that logs it.
    Finish { reply: ChatReply, line: LogLine },
    /// There is no answer.
    Refuse(String),
}

/// What the use of a tool stands for.
pub enum Used {
    Search(Seq<char>),
    Page(Seq<char>),
    Nothing,
}

impl View for ToolUse {
    type V = Used;

    open spec fn view(&self) -> Used {
        match self {
            ToolUse::Search(q) => Used::Search(q@),
            ToolUse::Page(url) => Used::Page(url@),
            ToolUse::Nothing => Used::Nothing,
        }
    }
}

/// What a tool does.
pub open spec fn used(name: Seq<char>, args: Tree) -> Used {
    if name == "search_history"@ {
        Used::Search(tool_arg(name, args))
    } else if name == "get_page"@ {
        Used::Page(tool_arg(name, args))
    } else {
        Used::Nothing
    }
}

/// What an action stands for.
pub enum ChatDeed {
    BadRequest,
    Search { query: Seq<char>, k: u32 },
    Post(Tree),
    Use(Used),
    Finish { reply: Answer, line: Line },
    Refuse(Seq<char>),
}

impl View for ChatAction {
    type V = ChatDeed;

    open spec fn view(&self) -> ChatDeed {
        match self {
            ChatAction::BadRequest => ChatDeed::BadRequest,
            ChatAction::Search { query, k } => ChatDeed::Search { query: query@, k: *k },
            ChatAction::Post(j) => ChatDeed::Post(j.tree()),
            ChatAction::Use(u) => ChatDeed::Use(u@),
            ChatAction::Finish { reply, line } => ChatDeed::Finish { reply: reply@, line: line@ },
            ChatAction::Refuse(e) => ChatDeed::Refuse(e@),
        }
    }
}

/// The event can happen at this stage.
pub open spec fn chat_expected(at: ChatAt, event: ChatHeard) -> bool {
    match at {
        ChatAt::Begin => event is Started,
        ChatAt::Searching(_) => event is Found,
        ChatAt::Talking { talk, .. } => event matches ChatHeard::Talk(e) && talk_expected(talk, e),
        ChatAt::Finished => false,
    }
}

/// The messages of a conversation so far.
pub open spec fn turn_trees(turns: Seq<ChatTurn>) -> Seq<Tree> {
    Seq::new(turns.len(), |i: int| message_tree(turns[i].role@, turns[i].content@))
}

/// The calls that are shown from the start: the search for the last message, where it found
/// anything.
pub open spec fn first_calls(last: Seq<char>, xml: Seq<char>) -> Seq<(Seq<char>, Seq<char>)> {
    if xml.len() == 0 {
        Seq::empty()
    } else {
        seq![("search_history"@, last)]
    }
}

/// The answer that the model gives, as it is shown and logged. Its sources are those found for
/// the message and those that tools found.
pub open spec fn answered(
    last: Seq<char>,
    found: Seq<Seq<char>>,
    calls: Seq<(Seq<char>, Seq<char>)>,
    md: Seq<char>,
    by_tools: Seq<Seq<char>>,
) -> ChatDeed {
    let urls = deduped(found + by_tools);
    ChatDeed::Finish {
        reply: Answer { html: html_of(md), md, sources: urls, calls },
        line: Line { kind: LogKind::Llm, message: last, detail: Some(answer_detail(md, urls)) },
    }
}

/// What comes of a step of the talk with the model.
pub open spec fn talk_goes_on(
    last: Seq<char>,
    found: Seq<Seq<char>>,
    calls: Seq<(Seq<char>, Seq<char>)>,
    system: Seq<char>,
    talk: TalkAt,
    deed: TalkDeed,
) -> (ChatAt, ChatDeed) {
    match deed {
        TalkDeed::Post(t) => (
            ChatAt::Talking { last, found, calls, system, talk },
            ChatDeed::Post(t),
        ),
        TalkDeed::Call { name, args } => (
            ChatAt::Talking {
                last,
                found,
                calls: calls.push((name, tool_arg(name, args))),
                system,
                talk,
            },
            ChatDeed::Use(used(name, args)),
        ),
        TalkDeed::Finish { answer, sources } => (
            ChatAt::Finished,
            answered(last, found, calls, answer, sources),
        ),
        TalkDeed::Refuse(e) => (ChatAt::Finished, ChatDeed::Refuse(e)),
    }
}

/// What comes after an event.
pub open spec fn chat_next(
    client: LlmClient,
    question: ChatQuestion,
    at: ChatAt,
    event: ChatHeard,
) -> (ChatAt, ChatDeed) {
    match (at, event) {
        (ChatAt::Begin, ChatHeard::Started) => match last_from_user(question.turns@) {
            None => (ChatAt::Finished, ChatDeed::BadRequest),
            Some(last) => (
                ChatAt::Searching(last),
                ChatDeed::Search { query: last, k: question.k },
            ),
        },
        (ChatAt::Searching(last), ChatHeard::Found { xml, urls }) => {
            let system = chat_instructions(question.date@, xml);
            let (talk, deed) = talk_start(client, system, turn_trees(question.turns@));
            talk_goes_on(last, urls, first_calls(last, xml), system, talk, deed)
        },
        (ChatAt::Talking { last, found, calls, system, talk }, ChatHeard::Talk(e)) => {
            let (talk, deed) = talk_next(client, system, talk, e);
            talk_goes_on(last, found, calls, system, talk, deed)
        },
        _ => (ChatAt::Finished, ChatDeed::BadRequest),
    }
}

/// A conversation as roles and contents has the messages of the conversation.
proof fn lemma_history(turns: Seq<ChatTurn>, history: Seq<(String, String)>)
    requires
        pairs(history) == spoken(turns),
    ensures
        history_trees(history) == turn_trees(turns),
{
    assert(pairs(history).len() == history.len());
    assert forall|i: int| 0 <= i < turns.len() implies #[trigger] history_trees(history)[i]
        == turn_trees(turns)[i] by {
        assert(pairs(history)[i] == spoken(turns)[i]);
    }
    assert(history_trees(history) =~= turn_trees(turns));
}

/// Takes over a step of the talk with the model.
fn go_on(
    last: String,
    found: Vec<String>,
    calls: Vec<ChatToolCall>,
    system: String,
    talk: TalkStage,
    action: TalkAction,
) -> (r: (ChatStage, ChatAction))
    ensures
        (r.0@, r.1@) == talk_goes_on(
            last@,
            texts(found@),
            shown_calls(calls@),
            system@,
            talk@,
            action@,
        ),
{
    match action {
        TalkAction::Post(request) => (
            ChatStage::Talking { last, found, calls, system, talk },
            ChatAction::Post(request),
        ),
        TalkAction::Call { name, args } => {
            let mut calls = calls;
            let ghost before = calls@;
            let (wanted, call) = tool_use(name.as_str(), &args);
            calls.push(call);
            proof {
                assert(shown_calls(calls@) =~= shown_calls(before).push((call.tool@, call.arg@)));
                reveal_strlit("search_history");
                reveal_strlit("get_page");
                assert("search_history"@.len() != "get_page"@.len());
            }
            (ChatStage::Talking { last, found, calls, system, talk }, ChatAction::Use(wanted))
        },
        TalkAction::Finish { answer, sources } => {
            let (reply, line) = chat_reply(last.as_str(), answer, found, sources, calls);
            (ChatStage::Finished, ChatAction::Finish { reply, line })
        },
        TalkAction::Refuse(e) => (ChatStage::Finished, ChatAction::Refuse(e)),
    }
}

/// Goes on with an answer after something happened.
pub fn chat_step(
    client: &LlmClient,
    question: &ChatQuestion,
    stage: ChatStage,
    event: ChatEvent,
) -> (r: (ChatStage, ChatAction))
    requires
        chat_expected(stage@, event@),
    ensures
        (r.0@, r.1@) == chat_next(*client, *question, stage@, event@),
{
    match (stage, event) {
        (ChatStage::Begin, ChatEvent::Started) => match last_user(&question.turns) {
            None => (ChatStage::Finished, ChatAction::BadRequest),
            Some(last) => {
                let query: String = last.clone();
                (ChatStage::Searching(last), ChatAction::Search { query, k: question.k })
            },
        },
        (ChatStage::Searching(last), ChatEvent::Found { xml, urls }) => {
            let history: Vec<(String, String)> = chat_history(&question.turns);
            proof {
                lemma_history(question.turns@, history@);
            }
            let system: String = chat_system_prompt(question.date.as_str(), xml.as_str());
            let calls: Vec<ChatToolCall> = first_tool_calls(last.as_str(), xml.as_str());
            assert(shown_calls(calls@) =~= first_calls(last@, xml@));
            let (talk, action) = talk_begin(client, system.as_str(), &history);
            go_on(last, urls, calls, system, talk, action)
        },
        (ChatStage::Talking { last, found, calls, system, talk }, ChatEvent::Talk(e)) => {
            let (talk, action) = talk_step(client, system.as_str(), talk, e);
            go_on(last, found, calls, system, talk, action)
        },
        _ => (ChatStage::Finished, ChatAction::BadRequest),
    }
}

/// A stage at which something is awaited that can happen.
pub open spec fn chat_ready(at: ChatAt) -> bool {
    match at {
        ChatAt::Talking { talk, .. } => talk_ready(talk),
        ChatAt::Finished => false,
        _ => true,
    }
}

/// How many replies of the model may still be asked for; one more before the talk begins, and
/// two more before anything is done.
pub open spec fn answers_left(at: ChatAt) -> int {
    match at {
        ChatAt::Begin => MAX_ROUNDS + 2,
        ChatAt::Searching(_) => MAX_ROUNDS + 1,
        ChatAt::Talking { talk, .. } => replies_left(talk),
        ChatAt::Finished => 0,
    }
}

/// How many calls of the last reply are still to be made.
pub open spec fn uses_left(at: ChatAt) -> int {
    match at {
        ChatAt::Talking { talk, .. } => calls_left(talk),
        _ => 0,
    }
}

/// Whatever is found, replied and given by tools, a message is answered or refused in the end:
/// every event that is awaited ends the matter, or leaves fewer replies to ask for, or as many
/// replies and fewer tools to use. What is awaited next can happen.
pub proof fn law_messages_are_answered(
    client: LlmClient,
    question: ChatQuestion,
    at: ChatAt,
    event: ChatHeard,
)
    requires
        chat_ready(at),
        chat_expected(at, event),
    ensures
        ({
            let next = chat_next(client, question, at, event).0;
            ||| next is Finished
            ||| chat_ready(next) && (answers_left(next) < answers_left(at) || answers_left(next)
                == answers_left(at) && uses_left(next) < uses_left(at))
        }),
{
    match (at, event) {
        (ChatAt::Searching(_), ChatHeard::Found { xml, urls }) => {
            law_conversations_begin(
                client,
                chat_instructions(question.date@, xml),
                turn_trees(question.turns@),
            );
        },
        (ChatAt::Talking { system, talk, .. }, ChatHeard::Talk(e)) => {
            law_conversations_end(client, system, talk, e);
        },
        _ => {},
    }
}

/// The sources of an answer are the pages that were found for the message and the pages that the
/// tools found, whatever the tools were.
pub proof fn law_answers_name_their_sources(
    last: Seq<char>,
    found: Seq<Seq<char>>,
    calls: Seq<(Seq<char>, Seq<char>)>,
    md: Seq<char>,
    by_tools: Seq<Seq<char>>,
    url: Seq<char>,
)
    ensures
        answered(last, found, calls, md, by_tools)->Finish_reply.sources.contains(url) == (
        found.contains(url) || by_tools.contains(url)),
{
    law_every_source_is_named(found + by_tools, url);
    let all = found + by_tools;
    if found.contains(url) {
        let i = choose|i: int| 0 <= i < found.len() && found[i] == url;
        assert(all[i] == url);
    }
    if by_tools.contains(url) {
        let i = choose|i: int| 0 <= i < by_tools.len() && by_tools[i] == url;
        assert(all[found.len() + i] == url);
    }
    if all.contains(url) {
        let i = choose|i: int| 0 <= i < all.len() && all[i] == url;
        if i < found.len() {
            assert(found[i] == url);
        } else {
            assert(by_tools[i - found.len()] == url);
        }
    }
}

/// A message is answered from the conversation: its last turn by the user is looked for, what is
/// found goes into the instructions, and the model is handed every turn. Without a turn by the
/// user there is nothing to answer.
pub proof fn law_the_last_message_is_looked_for(
    client: LlmClient,
    question: ChatQuestion,
    last: Seq<char>,
    xml: Seq<char>,
    urls: Seq<Seq<char>>,
)
    ensures
        ({
            let (next, deed) = chat_next(client, question, ChatAt::Begin, ChatHeard::Started);
            match last_from_user(question.turns@) {
                Some(said) => next == ChatAt::Searching(said) && deed == (ChatDeed::Search {
                    query: said,
                    k: question.k,
                }),
                None => next is Finished && deed is BadRequest,
            }
        }),
        ({
            let (next, deed) = chat_next(
                client,
                question,
                ChatAt::Searching(last),
                ChatHeard::Found { xml, urls },
            );
            client.provider is Disabled || {
                &&& next is Talking
                &&& deed is Post
                &&& next->last == last
                &&& next->found == urls
                &&& next->calls.len() == if xml.len() == 0 {
                    0nat
                } else {
                    1
                }
                &&& xml.len() > 0 ==> next->calls[0] == ("search_history"@, last)
                &&& xml.len() > 0 ==> contains_text(next->system, xml)
                &&& contains_text(next->system, question.date@)
                &&& contains_text(next->system, CHAT_SYSTEM_PROMPT@)
                &&& next->talk is Waiting
            }
        }),
{
    let system = chat_instructions(question.date@, xml);
    let base = dated(question.date@, CHAT_SYSTEM_PROMPT@);
    lemma_stands_between("The current date is "@, question.date@, ".\n"@ + CHAT_SYSTEM_PROMPT@);
    assert("The current date is "@ + question.date@ + (".\n"@ + CHAT_SYSTEM_PROMPT@) =~= base);
    lemma_stands_between(
        "The current date is "@ + question.date@ + ".\n"@,
        CHAT_SYSTEM_PROMPT@,
        Seq::empty(),
    );
    assert("The current date is "@ + question.date@ + ".\n"@ + CHAT_SYSTEM_PROMPT@
        + Seq::<char>::empty() =~= base);
    let open = "\n\n<prefetched_results>\n"@;
    let close = "\n</prefetched_results>"@;
    if xml.len() > 0 {
        lemma_stands_within(Seq::empty(), base, open + xml + close, question.date@);
        lemma_stands_within(Seq::empty(), base, open + xml + close, CHAT_SYSTEM_PROMPT@);
        assert(Seq::<char>::empty() + base + (open + xml + close) =~= system);
        lemma_stands_between(base + open, xml, close);
        assert(base + open + xml + close =~= system);
    }
}

/// What the model is told of a conversation is every turn of it, in its order.
pub proof fn law_every_turn_is_told(turns: Seq<ChatTurn>)
    ensures
        turn_trees(turns).len() == turns.len(),
        forall|i: int|
            0 <= i < turns.len() ==> #[trigger] turn_trees(turns)[i] == Tree::Object(
                seq![
                    ("role"@, Tree::Text(turns[i].role@)),
                    ("content"@, Tree::Text(turns[i].content@)),
                ],
            ),
{
    assert forall|i: int| 0 <= i < turns.len() implies #[trigger] turn_trees(turns)[i]
        == Tree::Object(
        seq![
            ("role"@, Tree::Text(turns[i].role@)),
            ("content"@, Tree::Text(turns[i].content@)),
        ],
    ) by {
        assert(turn_trees(turns)[i]->Object_0 =~= seq![
            ("role"@, Tree::Text(turns[i].role@)),
            ("content"@, Tree::Text(turns[i].content@)),
        ]);
    }
}

/// A call of a tool is carried out as what it is: a search for its words, or a page under its
/// URL; it is shown with what it was called with. An answer is shown as it is and as HTML, with
/// every call; a failure is told.
pub proof fn law_tools_are_used_as_called(
    last: Seq<char>,
    found: Seq<Seq<char>>,
    calls: Seq<(Seq<char>, Seq<char>)>,
    system: Seq<char>,
    talk: TalkAt,
    name: Seq<char>,
    args: Tree,
    answer: Seq<char>,
    sources: Seq<Seq<char>>,
)
    ensures
        ({
            let (next, deed) = talk_goes_on(
                last,
                found,
                calls,
                system,
                talk,
                TalkDeed::Call { name, args },
            );
            &&& name == "search_history"@ ==> deed == ChatDeed::Use(
                Used::Search(args.text_or("query"@, ""@)),
            ) && next->calls.last() == (name, args.text_or("query"@, ""@))
            &&& name == "get_page"@ ==> deed == ChatDeed::Use(Used::Page(args.text_or("url"@, ""@)))
                && next->calls.last() == (name, args.text_or("url"@, ""@))
            &&& name != "search_history"@ && name != "get_page"@ ==> deed == ChatDeed::Use(
                Used::Nothing,
            )
            &&& next is Talking
            &&& next->talk == talk && next->last == last && next->found == found && next->system
                == system
            &&& next->calls.drop_last() == calls
        }),
        ({
            let (next, deed) = talk_goes_on(
                last,
                found,
                calls,
                system,
                talk,
                TalkDeed::Finish { answer, sources },
            );
            &&& next is Finished
            &&& deed is Finish
            &&& deed->reply.md == answer
            &&& deed->reply.html == html_of(answer)
            &&& deed->reply.calls == calls
            &&& deed->line.message == last
        }),
        talk_goes_on(last, found, calls, system, talk, TalkDeed::Refuse(answer)) == (
            ChatAt::Finished,
            ChatDeed::Refuse(answer),
        ),
{
    reveal_strlit("search_history");
    reveal_strlit("get_page");
    assert("search_history"@.len() == 14 && "get_page"@.len() == 8);
    assert(calls.push((name, tool_arg(name, args))).drop_last() =~= calls);
}

/// The model is handed every turn of the conversation, in its order, behind the instructions; what
/// it is asked next is what the talk with it says.
pub proof fn law_the_model_is_handed_every_turn(
    client: LlmClient,
    question: ChatQuestion,
    last: Seq<char>,
    xml: Seq<char>,
    urls: Seq<Seq<char>>,
)
    requires
        !(client.provider is Disabled),
    ensures
        ({
            let (next, deed) = chat_next(
                client,
                question,
                ChatAt::Searching(last),
                ChatHeard::Found { xml, urls },
            );
            let turns = question.turns@;
            let messages = next->talk->Waiting_0.messages;
            &&& next->talk is Waiting
            &&& deed == ChatDeed::Post(request_tree(client, next->system, messages))
            &&& client.provider is Anthropic ==> messages.len() == turns.len() && forall|i: int|
                0 <= i < turns.len() ==> #[trigger] messages[i] == message_tree(
                    turns[i].role@,
                    turns[i].content@,
                )
            &&& !(client.provider is Anthropic) ==> messages.len() == turns.len() + 1 && messages[0]
                == message_tree("system"@, next->system) && forall|i: int|
                0 <= i < turns.len() ==> #[trigger] messages[i + 1] == message_tree(
                    turns[i].role@,
                    turns[i].content@,
                )
        }),
{
}

/// A talk goes on with what is heard in it, and nothing of the message that is answered, of what
/// was found for it, or of the instructions is lost on the way.
pub proof fn law_nothing_is_lost_in_a_talk(
    client: LlmClient,
    question: ChatQuestion,
    at: ChatAt,
    e: Heard,
)
    requires
        at is Talking,
    ensures
        ({
            let (next, deed) = chat_next(client, question, at, ChatHeard::Talk(e));
            let (talk, said) = talk_next(client, at->system, at->talk, e);
            &&& next is Talking ==> next->last == at->last && next->found == at->found
                && next->system == at->system && next->talk == talk && at->calls.is_prefix_of(
                next->calls,
            )
            &&& said matches TalkDeed::Post(t) ==> deed == ChatDeed::Post(t) && next is Talking
            &&& said is Call ==> deed is Use && next is Talking
            &&& said matches TalkDeed::Finish { answer, sources } ==> next is Finished && deed
                is Finish && deed->reply.md == answer
            &&& said matches TalkDeed::Refuse(why) ==> deed == ChatDeed::Refuse(why)
        }),
{
    let (next, deed) = chat_next(client, question, at, ChatHeard::Talk(e));
    if next is Talking {
        assert(at->calls =~= next->calls.take(at->calls.len() as int));
    }
}

} // verus!
