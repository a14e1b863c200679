//! The course of a conversation in which the model may call tools: a request, a reply, the calls
//! that the reply asks for one after the other, and the next request.

use vstd::prelude::*;
use vstd::string::*;

use crate::json::{field, trees, Json, Tree};
use crate::rag::tools::{
    add_urls, anthropic_body, anthropic_reply, anthropic_request, anthropic_result_tree,
    anthropic_results, anthropic_results_of, anthropic_said, assistant_tree, calls, history_trees,
    message_tree, openai_body, openai_choice, openai_reply, openai_request, openai_result,
    openai_result_tree, openai_said, user_results_tree, with_extra, Call, Reply, Said, ToolCall,
    ToolChat, MAX_ROUNDS,
};
use crate::rag::{interface_of, Interface, LlmClient};
use crate::text::texts;

verus! {

/// What a conversation stands for.
#[verifier::ext_equal]
pub struct Talk {
    pub messages: Seq<Tree>,
    pub sources: Seq<Seq<char>>,
    pub rounds: int,
}

impl View for ToolChat {
    type V = Talk;

    open spec fn view(&self) -> Talk {
        Talk {
            messages: trees(self.messages@),
            sources: texts(self.sources@),
            rounds: self.rounds as int,
        }
    }
}

/// How far a conversation has come.
pub enum TalkStage {
    /// A reply of the model is awaited.
    Waiting(ToolChat),
    /// The result of a call is awaited: of the calls that the last reply asks for, the one at
    /// this place. Results that go to the model together are gathered.
    Calling(ToolChat, Vec<ToolCall>, usize, Vec<(String, String)>),
    /// Everything is said.
    Finished,
}

/// What a stage stands for.
pub enum TalkAt {
    Waiting(Talk),
    Calling(Talk, Seq<Call>, int, Seq<Tree>),
    Finished,
}

impl View for TalkStage {
    type V = TalkAt;

    open spec fn view(&self) -> TalkAt {
        match self {
            TalkStage::Waiting(chat) => TalkAt::Waiting(chat@),
            TalkStage::Calling(chat, list, done, results) => TalkAt::Calling(
                chat@,
                calls(list@),
                *done as int,
                anthropic_results_of(results@),
            ),
            TalkStage::Finished => TalkAt::Finished,
        }
    }
}

/// What happened.
pub enum TalkEvent {
    /// The model replied.
    Replied(Json),
    /// A tool gave a result, and the URLs that it rests on.
    Result { xml: String, urls: Vec<String> },
}

/// What an event stands for.
pub enum Heard {
    Replied(Tree),
    Result { xml: Seq<char>, urls: Seq<Seq<char>> },
}

impl View for TalkEvent {
    type V = Heard;

    open spec fn view(&self) -> Heard {
        match self {
            TalkEvent::Replied(j) => Heard::Replied(j.tree()),
            TalkEvent::Result { xml, urls } => Heard::Result { xml: xml@, urls: texts(urls@) },
        }
    }
}

/// What to do next.
pub enum TalkAction {
    /// Send a request to the model.
    Post(Json),
    /// Call a tool.
    Call { name: String, args: Json },
    /// This is the answer, and the URLs that the tools gave.
    Finish { answer: String, sources: Vec<String> },
    /// There is no answer.
    Refuse(String),
}

/// What an action stands for.
pub enum TalkDeed {
    Post(Tree),
    Call { name: Seq<char>, args: Tree },
    Finish { answer: Seq<char>, sources: Seq<Seq<char>> },
    Refuse(Seq<char>),
}

impl View for TalkAction {
    type V = TalkDeed;

    open spec fn view(&self) -> TalkDeed {
        match self {
            TalkAction::Post(j) => TalkDeed::Post(j.tree()),
            TalkAction::Call { name, args } => TalkDeed::Call { name: name@, args: args.tree() },
            TalkAction::Finish { answer, sources } => TalkDeed::Finish {
                answer: answer@,
                sources: texts(sources@),
            },
            TalkAction::Refuse(e) => TalkDeed::Refuse(e@),
        }
    }
}

/// The messages that a conversation begins with. Anthropic's interface takes the instructions
/// apart from them.
pub open spec fn first_messages(
    interface: Interface,
    system: Seq<char>,
    history: Seq<Tree>,
) -> Seq<Tree> {
    match interface {
        Interface::Anthropic => history,
        _ => seq![message_tree("system"@, system)] + history,
    }
}

/// The request for the next reply.
pub open spec fn request_tree(client: LlmClient, system: Seq<char>, messages: Seq<Tree>) -> Tree {
    match interface_of(client.provider) {
        Interface::Anthropic => with_extra(
            anthropic_body(client.model@, client.max_tokens, system, messages),
            client.extra_params,
        ),
        _ => with_extra(
            openai_body(client.model@, client.max_tokens, messages),
            client.extra_params,
        ),
    }
}

/// What a reply says.
pub open spec fn said(interface: Interface, reply: Tree) -> Said {
    match interface {
        Interface::Anthropic => anthropic_said(reply),
        _ => openai_said(reply),
    }
}

/// A reply that asks for tools, as a message of the conversation.
pub open spec fn reply_message(interface: Interface, reply: Tree) -> Tree {
    match interface {
        Interface::Anthropic => assistant_tree(reply.list_or_empty("content"@)),
        _ => openai_choice(reply).at("message"@),
    }
}

/// Another reply is asked for, unless there have been too many.
pub open spec fn asking(client: LlmClient, system: Seq<char>, talk: Talk) -> (TalkAt, TalkDeed) {
    if talk.rounds < MAX_ROUNDS {
        (TalkAt::Waiting(talk), TalkDeed::Post(request_tree(client, system, talk.messages)))
    } else {
        (TalkAt::Finished, TalkDeed::Refuse("tool call loop exceeded maximum iterations"@))
    }
}

/// The call at a place is made; after the last, another reply is asked for. Anthropic's interface
/// gets the results of all calls in one message.
pub open spec fn calling(
    client: LlmClient,
    system: Seq<char>,
    talk: Talk,
    list: Seq<Call>,
    done: int,
    results: Seq<Tree>,
) -> (TalkAt, TalkDeed) {
    if done < list.len() {
        (
            TalkAt::Calling(talk, list, done, results),
            TalkDeed::Call { name: list[done].name, args: list[done].args },
        )
    } else if interface_of(client.provider) is Anthropic {
        asking(
            client,
            system,
            Talk { messages: talk.messages.push(user_results_tree(results)), ..talk },
        )
    } else {
        asking(client, system, talk)
    }
}

/// What a conversation begins with.
pub open spec fn talk_start(
    client: LlmClient,
    system: Seq<char>,
    history: Seq<Tree>,
) -> (TalkAt, TalkDeed) {
    let interface = interface_of(client.provider);
    if interface is Disabled {
        (TalkAt::Finished, TalkDeed::Refuse("LLM is disabled (provider = \"none\")"@))
    } else {
        asking(
            client,
            system,
            Talk {
                messages: first_messages(interface, system, history),
                sources: Seq::empty(),
                rounds: 0,
            },
        )
    }
}

/// The event can happen at this stage.
pub open spec fn talk_expected(at: TalkAt, event: Heard) -> bool {
    match at {
        TalkAt::Waiting(talk) => event is Replied && talk.rounds < MAX_ROUNDS,
        TalkAt::Calling(talk, list, done, results) => event is Result && 0 <= done < list.len()
            && 0 <= talk.rounds <= MAX_ROUNDS,
        TalkAt::Finished => false,
    }
}

/// What comes after an event.
pub open spec fn talk_next(client: LlmClient, system: Seq<char>, at: TalkAt, event: Heard) -> (
    TalkAt,
    TalkDeed,
) {
    let interface = interface_of(client.provider);
    match (at, event) {
        (TalkAt::Waiting(talk), Heard::Replied(reply)) => match said(interface, reply) {
            Said::Answer(answer) => (
                TalkAt::Finished,
                TalkDeed::Finish { answer, sources: talk.sources },
            ),
            Said::Calls(list) => calling(
                client,
                system,
                Talk {
                    messages: talk.messages.push(reply_message(interface, reply)),
                    sources: talk.sources,
                    rounds: talk.rounds + 1,
                },
                list,
                0,
                Seq::empty(),
            ),
        },
        (TalkAt::Calling(talk, list, done, results), Heard::Result { xml, urls }) => {
            let id = list[done].id;
            if interface is Anthropic {
                calling(
                    client,
                    system,
                    Talk { sources: talk.sources + urls, ..talk },
                    list,
                    done + 1,
                    results.push(anthropic_result_tree(id, xml)),
                )
            } else {
                calling(
                    client,
                    system,
                    Talk {
                        messages: talk.messages.push(openai_result_tree(id, xml)),
                        sources: talk.sources + urls,
                        rounds: talk.rounds,
                    },
                    list,
                    done + 1,
                    results,
                )
            }
        },
        _ => (TalkAt::Finished, TalkDeed::Refuse(Seq::empty())),
    }
}

/// Asks for another reply, unless there have been too many.
fn ask_on(client: &LlmClient, system: &str, chat: ToolChat) -> (r: (TalkStage, TalkAction))
    ensures
        (r.0@, r.1@) == asking(*client, system@, chat@),
{
    if !chat.goes_on() {
        return (
            TalkStage::Finished,
            TalkAction::Refuse("tool call loop exceeded maximum iterations".to_owned()),
        );
    }
    let request: Json = match client.interface() {
        Interface::Anthropic => anthropic_request(
            &chat,
            client.model.as_str(),
            client.max_tokens,
            system,
            &client.extra_params,
        ),
        _ => openai_request(&chat, client.model.as_str(), client.max_tokens, &client.extra_params),
    };
    (TalkStage::Waiting(chat), TalkAction::Post(request))
}

/// Makes the call at a place, or asks for another reply after the last.
fn call_on(
    client: &LlmClient,
    system: &str,
    chat: ToolChat,
    list: Vec<ToolCall>,
    done: usize,
    results: Vec<(String, String)>,
) -> (r: (TalkStage, TalkAction))
    ensures
        (r.0@, r.1@) == calling(
            *client,
            system@,
            chat@,
            calls(list@),
            done as int,
            anthropic_results_of(results@),
        ),
{
    if done < list.len() {
        let name: String = list[done].name.clone();
        let args: Json = list[done].args.duplicate();
        return (TalkStage::Calling(chat, list, done, results), TalkAction::Call { name, args });
    }
    let mut chat = chat;
    if let Interface::Anthropic = client.interface() {
        let ghost before = chat@;
        let none: Vec<String> = Vec::new();
        anthropic_results(&mut chat, &results, &none);
        assert(chat@.sources =~= before.sources);
    }
    ask_on(client, system, chat)
}

/// Begins a conversation.
pub fn talk_begin(client: &LlmClient, system: &str, history: &Vec<(String, String)>) -> (r: (
    TalkStage,
    TalkAction,
))
    ensures
        (r.0@, r.1@) == talk_start(*client, system@, history_trees(history@)),
{
    let chat: ToolChat = match client.interface() {
        Interface::Disabled => {
            return (
                TalkStage::Finished,
                TalkAction::Refuse("LLM is disabled (provider = \"none\")".to_owned()),
            );
        },
        Interface::Anthropic => ToolChat::anthropic(history),
        Interface::Openai => ToolChat::openai(history, system),
    };
    assert(chat@.sources =~= Seq::empty());
    ask_on(client, system, chat)
}

/// Goes on with a conversation after something happened.
pub fn talk_step(client: &LlmClient, system: &str, stage: TalkStage, event: TalkEvent) -> (r: (
    TalkStage,
    TalkAction,
))
    requires
        talk_expected(stage@, event@),
    ensures
        (r.0@, r.1@) == talk_next(*client, system@, stage@, event@),
{
    match (stage, event) {
        (TalkStage::Waiting(chat), TalkEvent::Replied(reply)) => {
            let mut chat = chat;
            let heard: Reply = match client.interface() {
                Interface::Anthropic => anthropic_reply(&mut chat, &reply),
                _ => openai_reply(&mut chat, &reply),
            };
            match heard {
                Reply::Answer(answer) => (
                    TalkStage::Finished,
                    TalkAction::Finish { answer, sources: chat.sources },
                ),
                Reply::Calls(list) => {
                    let results: Vec<(String, String)> = Vec::new();
                    assert(anthropic_results_of(results@) =~= Seq::empty());
                    call_on(client, system, chat, list, 0, results)
                },
            }
        },
        (TalkStage::Calling(chat, list, done, results), TalkEvent::Result { xml, urls }) => {
            let mut chat = chat;
            let mut results = results;
            let id: String = list[done].id.clone();
            assert(calls(list@).len() == list@.len());
            let len: usize = list.len();
            assert(done < len);
            let next: usize = done + 1;
            if let Interface::Anthropic = client.interface() {
                let ghost before = results@;
                results.push((id, xml));
                assert(anthropic_results_of(results@) =~= anthropic_results_of(before).push(
                    anthropic_result_tree(id@, xml@),
                ));
                add_urls(&mut chat.sources, &urls);
            } else {
                openai_result(&mut chat, id.as_str(), xml.as_str(), &urls);
            }
            call_on(client, system, chat, list, next, results)
        },
        _ => (TalkStage::Finished, TalkAction::Refuse(String::new())),
    }
}

/// A stage at which something is awaited, with as many replies so far as there may be.
pub open spec fn talk_ready(at: TalkAt) -> bool {
    match at {
        TalkAt::Waiting(talk) => 0 <= talk.rounds < MAX_ROUNDS,
        TalkAt::Calling(talk, list, done, _) => 0 <= done < list.len() && 0 <= talk.rounds
            <= MAX_ROUNDS,
        TalkAt::Finished => false,
    }
}

/// How many replies may still be asked for.
pub open spec fn replies_left(at: TalkAt) -> int {
    match at {
        TalkAt::Waiting(talk) => MAX_ROUNDS - talk.rounds,
        TalkAt::Calling(talk, _, _, _) => MAX_ROUNDS - talk.rounds,
        TalkAt::Finished => 0,
    }
}

/// How many calls of the last reply are still to be made.
pub open spec fn calls_left(at: TalkAt) -> int {
    match at {
        TalkAt::Calling(_, list, done, _) => list.len() - done,
        _ => 0,
    }
}

/// The conversation at a stage.
pub open spec fn talk_at(at: TalkAt) -> Option<Talk> {
    match at {
        TalkAt::Waiting(talk) => Some(talk),
        TalkAt::Calling(talk, _, _, _) => Some(talk),
        TalkAt::Finished => None,
    }
}

/// Whatever the model replies and the tools give, a conversation comes to its end: every event
/// that it awaits either ends it, or leaves fewer replies to ask for, or as many replies and fewer
/// calls to make. What it awaits next can happen.
pub proof fn law_conversations_end(client: LlmClient, system: Seq<char>, at: TalkAt, event: Heard)
    requires
        talk_ready(at),
        talk_expected(at, event),
    ensures
        ({
            let next = talk_next(client, system, at, event).0;
            ||| next is Finished
            ||| talk_ready(next) && (replies_left(next) < replies_left(at) || replies_left(next)
                == replies_left(at) && calls_left(next) < calls_left(at))
        }),
{
}

/// A conversation that is begun can go on, or is refused at once.
pub proof fn law_conversations_begin(client: LlmClient, system: Seq<char>, history: Seq<Tree>)
    ensures
        ({
            let (at, deed) = talk_start(client, system, history);
            if client.provider is Disabled {
                at is Finished && deed is Refuse
            } else {
                talk_ready(at) && replies_left(at) == MAX_ROUNDS && deed is Post
            }
        }),
{
}

/// Nothing that was said is lost, and no source: the messages of a conversation only grow, and
/// what tools find joins the sources found before. The answer names all of them.
pub proof fn law_conversations_grow(client: LlmClient, system: Seq<char>, at: TalkAt, event: Heard)
    requires
        talk_ready(at),
        talk_expected(at, event),
    ensures
        ({
            let (next, deed) = talk_next(client, system, at, event);
            let before = talk_at(at)->Some_0;
            let found = match event {
                Heard::Result { xml, urls } => before.sources + urls,
                Heard::Replied(_) => before.sources,
            };
            &&& talk_at(next) matches Some(after) ==> {
                &&& before.messages.len() <= after.messages.len()
                &&& after.messages.take(before.messages.len() as int) == before.messages
                &&& after.sources == found
            }
            &&& deed matches TalkDeed::Finish { answer, sources } ==> sources == found
        }),
{
    let before = talk_at(at)->Some_0;
    if let Some(after) = talk_at(talk_next(client, system, at, event).0) {
        assert(after.messages.take(before.messages.len() as int) =~= before.messages);
    }
}

/// What the model says is taken as it says it: an answer ends the conversation, with all sources;
/// calls are made one after the other, each of them, in their order. What each gives is handed to
/// the model under the number of its call, and when all are made the model is asked again. After
/// eight replies with calls it is not.
pub proof fn law_every_call_is_made(client: LlmClient, system: Seq<char>, at: TalkAt, event: Heard)
    requires
        talk_ready(at),
        talk_expected(at, event),
        !(client.provider is Disabled),
    ensures
        ({
            let (next, deed) = talk_next(client, system, at, event);
            let anthropic = client.provider is Anthropic;
            &&& at matches TalkAt::Waiting(talk) ==> {
                let what = if anthropic {
                    anthropic_said(event->Replied_0)
                } else {
                    openai_said(event->Replied_0)
                };
                &&& what matches Said::Answer(answer) ==> next is Finished && deed == (
                TalkDeed::Finish { answer, sources: talk.sources })
                &&& what matches Said::Calls(list) ==> list.len() > 0 ==> {
                    &&& deed == (TalkDeed::Call { name: list[0].name, args: list[0].args })
                    &&& next is Calling
                    &&& next->Calling_1 == list && next->Calling_2 == 0
                    &&& next->Calling_0.messages.len() == talk.messages.len() + 1
                    &&& next->Calling_0.rounds == talk.rounds + 1
                }
            }
            &&& at matches TalkAt::Calling(talk, list, done, results) ==> {
                &&& done + 1 < list.len() ==> {
                    &&& deed == (TalkDeed::Call {
                        name: list[done + 1].name,
                        args: list[done + 1].args,
                    })
                    &&& next is Calling
                    &&& next->Calling_1 == list && next->Calling_2 == done + 1
                }
                &&& done + 1 == list.len() && talk.rounds < 8 ==> next is Waiting && deed is Post
                &&& done + 1 == list.len() && talk.rounds >= 8 ==> next is Finished && deed
                    is Refuse
                &&& next is Calling && !anthropic ==> next->Calling_0.messages
                    == talk.messages.push(openai_result_tree(list[done].id, event->xml))
                &&& next is Calling && anthropic ==> next->Calling_3 == results.push(
                    anthropic_result_tree(list[done].id, event->xml),
                )
                &&& next is Waiting && !anthropic ==> next->Waiting_0.messages
                    == talk.messages.push(openai_result_tree(list[done].id, event->xml))
                &&& next is Waiting && anthropic ==> next->Waiting_0.messages == talk.messages.push(
                    user_results_tree(
                        results.push(anthropic_result_tree(list[done].id, event->xml)),
                    ),
                )
            }
        }),
{
}

/// Every request carries the whole conversation: the instructions, and all messages so far.
pub proof fn law_requests_carry_the_conversation(
    client: LlmClient,
    system: Seq<char>,
    history: Seq<Tree>,
    messages: Seq<Tree>,
)
    requires
        client.extra_params is None,
    ensures
        ({
            let t = request_tree(client, system, messages);
            &&& t.get("messages"@) == Some(Tree::List(messages))
            &&& t.get("model"@) == Some(Tree::Text(client.model@))
            &&& t.get("max_tokens"@) == Some(Tree::Unsigned(client.max_tokens as u64))
            &&& client.provider is Anthropic ==> t.get("system"@) == Some(Tree::Text(system))
        }),
        client.provider is Anthropic ==> first_messages(Interface::Anthropic, system, history)
            == history,
        ({
            let first = first_messages(Interface::Openai, system, history);
            &&& first.len() == history.len() + 1
            &&& first[0].get("role"@) == Some(Tree::Text("system"@))
            &&& first[0].get("content"@) == Some(Tree::Text(system))
            &&& forall|i: int| 0 <= i < history.len() ==> #[trigger] first[i + 1] == history[i]
        }),
{
    reveal_with_fuel(field, 6);
    reveal_strlit("messages");
    reveal_strlit("model");
    reveal_strlit("max_tokens");
    reveal_strlit("system");
    reveal_strlit("role");
    reveal_strlit("content");
    let t = request_tree(client, system, messages);
    let list = t->Object_0;
    assert("model"@ != "max_tokens"@ && "model"@ != "system"@ && "model"@ != "messages"@) by {
        assert("model"@.len() == 5 && "max_tokens"@.len() == 10 && "system"@.len() == 6
            && "messages"@.len() == 8);
    }
    assert("max_tokens"@ != "system"@ && "max_tokens"@ != "messages"@ && "system"@ != "messages"@) by {
        assert("max_tokens"@.len() == 10 && "system"@.len() == 6 && "messages"@.len() == 8);
    }
    assert(list[0] == ("model"@, Tree::Text(client.model@)));
    assert(list[1].0 == "max_tokens"@);
    let l1 = list.drop_first();
    let l2 = l1.drop_first();
    let l3 = l2.drop_first();
    assert(l1[0] == list[1] && l2[0] == list[2] && l3[0] == list[3]);
    let first = first_messages(Interface::Openai, system, history);
    let m = first[0]->Object_0;
    assert(m[0] == ("role"@, Tree::Text("system"@)));
    assert(m[1] == ("content"@, Tree::Text(system)));
    assert("role"@ != "content"@) by {
        assert("role"@.len() == 4 && "content"@.len() == 7);
    }
    assert(m.drop_first()[0] == m[1]);
}

/// Whenever the model is asked, it is handed the instructions and all messages of the conversation
/// so far; a conversation begins with all of its history. A reply with calls joins the messages as
/// the model gave it.
pub proof fn law_the_model_is_asked_with_everything(
    client: LlmClient,
    system: Seq<char>,
    history: Seq<Tree>,
    at: TalkAt,
    event: Heard,
)
    requires
        talk_ready(at),
        talk_expected(at, event),
        !(client.provider is Disabled),
    ensures
        ({
            let (next, deed) = talk_next(client, system, at, event);
            &&& next matches TalkAt::Waiting(talk) ==> deed == TalkDeed::Post(
                request_tree(client, system, talk.messages),
            )
            &&& next is Calling && at is Waiting && client.provider is Anthropic
                ==> next->Calling_0.messages.last() == Tree::Object(
                seq![
                    ("role"@, Tree::Text("assistant"@)),
                    ("content"@, Tree::List(event->Replied_0.list_or_empty("content"@))),
                ],
            )
            &&& next is Calling && at is Waiting && !(client.provider is Anthropic)
                ==> next->Calling_0.messages.last() == event->Replied_0.at("choices"@).head().at(
                "message"@,
            )
        }),
        ({
            let (first, deed) = talk_start(client, system, history);
            &&& first is Waiting
            &&& deed == TalkDeed::Post(request_tree(client, system, first->Waiting_0.messages))
            &&& first->Waiting_0.sources.len() == 0
            &&& first->Waiting_0.rounds == 0
            &&& client.provider is Anthropic ==> first->Waiting_0.messages == history
            &&& !(client.provider is Anthropic) ==> first->Waiting_0.messages == seq![
                message_tree("system"@, system),
            ] + history
        }),
{
    if event is Replied {
        let content = event->Replied_0.list_or_empty("content"@);
        assert(assistant_tree(content)->Object_0 =~= seq![
            ("role"@, Tree::Text("assistant"@)),
            ("content"@, Tree::List(content)),
        ]);
    }
}

} // verus!
