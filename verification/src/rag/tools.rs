//! Conversations in which the model may call tools.

use vstd::prelude::*;
use vstd::string::*;

use crate::json::{duplicates, overlaid, parse_json, parsed_json, trees, Json, Tree};
use crate::lists::{lemma_picked_none, lemma_picked_one_more, picked, push_text};
use crate::text::{same_text, texts};

verus! {

/// The tool that searches the history, as OpenAI's interface has it.
pub open spec fn search_tool_openai_tree() -> Tree {
    Tree::empty().with(
        "type"@,
        Tree::Text("function"@),
    ).with(
        "function"@,
        Tree::empty().with(
            "name"@,
            Tree::Text("search_history"@),
        ).with(
            "description"@,
            Tree::Text("Search the user's personal browsing history index for pages they have previously visited. Use this when the user asks about something they may have read or researched."@),
        ).with(
            "parameters"@,
            Tree::empty().with(
                "type"@,
                Tree::Text("object"@),
            ).with(
                "properties"@,
                Tree::empty().with(
                    "query"@,
                    Tree::empty().with(
                        "type"@,
                        Tree::Text("string"@),
                    ).with(
                        "description"@,
                        Tree::Text("Search terms"@),
                    ),
                ),
            ).with(
                "required"@,
                Tree::List(
                    seq![
                        Tree::Text("query"@),
                    ],
                ),
            ),
        ),
    )
}

/// The tool that searches the history, as OpenAI's interface has it.
pub fn search_tool_openai() -> (r: Json)
    ensures
        r.tree() == search_tool_openai_tree(),
{
    Json::empty().with(
        "type",
        Json::of("function"),
    ).with(
        "function",
        Json::empty().with(
            "name",
            Json::of("search_history"),
        ).with(
            "description",
            Json::of("Search the user's personal browsing history index for pages they have previously visited. Use this when the user asks about something they may have read or researched."),
        ).with(
            "parameters",
            Json::empty().with(
                "type",
                Json::of("object"),
            ).with(
                "properties",
                Json::empty().with(
                    "query",
                    Json::empty().with(
                        "type",
                        Json::of("string"),
                    ).with(
                        "description",
                        Json::of("Search terms"),
                    ),
                ),
            ).with(
                "required",
                Json::only(Json::of("query")),
            ),
        ),
    )
}

/// The tool that reads a page, as OpenAI's interface has it.
pub open spec fn page_tool_openai_tree() -> Tree {
    Tree::empty().with(
        "type"@,
        Tree::Text("function"@),
    ).with(
        "function"@,
        Tree::empty().with(
            "name"@,
            Tree::Text("get_page"@),
        ).with(
            "description"@,
            Tree::Text("Retrieve the full indexed body of a specific page by URL. Use this after search_history identifies a relevant page and you need its complete content to answer the question in depth."@),
        ).with(
            "parameters"@,
            Tree::empty().with(
                "type"@,
                Tree::Text("object"@),
            ).with(
                "properties"@,
                Tree::empty().with(
                    "url"@,
                    Tree::empty().with(
                        "type"@,
                        Tree::Text("string"@),
                    ).with(
                        "description"@,
                        Tree::Text("The exact URL of the page to retrieve"@),
                    ),
                ),
            ).with(
                "required"@,
                Tree::List(
                    seq![
                        Tree::Text("url"@),
                    ],
                ),
            ),
        ),
    )
}

/// The tool that reads a page, as OpenAI's interface has it.
pub fn page_tool_openai() -> (r: Json)
    ensures
        r.tree() == page_tool_openai_tree(),
{
    Json::empty().with(
        "type",
        Json::of("function"),
    ).with(
        "function",
        Json::empty().with(
            "name",
            Json::of("get_page"),
        ).with(
            "description",
            Json::of("Retrieve the full indexed body of a specific page by URL. Use this after search_history identifies a relevant page and you need its complete content to answer the question in depth."),
        ).with(
            "parameters",
            Json::empty().with(
                "type",
                Json::of("object"),
            ).with(
                "properties",
                Json::empty().with(
                    "url",
                    Json::empty().with(
                        "type",
                        Json::of("string"),
                    ).with(
                        "description",
                        Json::of("The exact URL of the page to retrieve"),
                    ),
                ),
            ).with(
                "required",
                Json::only(Json::of("url")),
            ),
        ),
    )
}

/// The tool that searches the history, as Anthropic's interface has it.
pub open spec fn search_tool_anthropic_tree() -> Tree {
    Tree::empty().with(
        "name"@,
        Tree::Text("search_history"@),
    ).with(
        "description"@,
        Tree::Text("Search the user's personal browsing history index for pages they have previously visited."@),
    ).with(
        "input_schema"@,
        Tree::empty().with(
            "type"@,
            Tree::Text("object"@),
        ).with(
            "properties"@,
            Tree::empty().with(
                "query"@,
                Tree::empty().with(
                    "type"@,
                    Tree::Text("string"@),
                ).with(
                    "description"@,
                    Tree::Text("Search terms"@),
                ),
            ),
        ).with(
            "required"@,
            Tree::List(
                seq![
                    Tree::Text("query"@),
                ],
            ),
        ),
    )
}

/// The tool that searches the history, as Anthropic's interface has it.
pub fn search_tool_anthropic() -> (r: Json)
    ensures
        r.tree() == search_tool_anthropic_tree(),
{
    Json::empty().with(
        "name",
        Json::of("search_history"),
    ).with(
        "description",
        Json::of("Search the user's personal browsing history index for pages they have previously visited."),
    ).with(
        "input_schema",
        Json::empty().with(
            "type",
            Json::of("object"),
        ).with(
            "properties",
            Json::empty().with(
                "query",
                Json::empty().with(
                    "type",
                    Json::of("string"),
                ).with(
                    "description",
                    Json::of("Search terms"),
                ),
            ),
        ).with(
            "required",
            Json::only(Json::of("query")),
        ),
    )
}

/// The tool that reads a page, as Anthropic's interface has it.
pub open spec fn page_tool_anthropic_tree() -> Tree {
    Tree::empty().with(
        "name"@,
        Tree::Text("get_page"@),
    ).with(
        "description"@,
        Tree::Text("Retrieve the full indexed body of a specific page by URL. Use this after search_history identifies a relevant page and you need its complete content to answer the question in depth."@),
    ).with(
        "input_schema"@,
        Tree::empty().with(
            "type"@,
            Tree::Text("object"@),
        ).with(
            "properties"@,
            Tree::empty().with(
                "url"@,
                Tree::empty().with(
                    "type"@,
                    Tree::Text("string"@),
                ).with(
                    "description"@,
                    Tree::Text("The exact URL of the page to retrieve"@),
                ),
            ),
        ).with(
            "required"@,
            Tree::List(
                seq![
                    Tree::Text("url"@),
                ],
            ),
        ),
    )
}

/// The tool that reads a page, as Anthropic's interface has it.
pub fn page_tool_anthropic() -> (r: Json)
    ensures
        r.tree() == page_tool_anthropic_tree(),
{
    Json::empty().with(
        "name",
        Json::of("get_page"),
    ).with(
        "description",
        Json::of("Retrieve the full indexed body of a specific page by URL. Use this after search_history identifies a relevant page and you need its complete content to answer the question in depth."),
    ).with(
        "input_schema",
        Json::empty().with(
            "type",
            Json::of("object"),
        ).with(
            "properties",
            Json::empty().with(
                "url",
                Json::empty().with(
                    "type",
                    Json::of("string"),
                ).with(
                    "description",
                    Json::of("The exact URL of the page to retrieve"),
                ),
            ),
        ).with(
            "required",
            Json::only(Json::of("url")),
        ),
    )
}

/// The most replies that are asked for in answer to one message.
pub const MAX_ROUNDS: u32 = 8;

/// A call of a tool that the model asks for.
pub struct ToolCall {
    pub id: String,
    pub name: String,
    pub args: Json,
}

/// What a call stands for.
pub struct Call {
    pub id: Seq<char>,
    pub name: Seq<char>,
    pub args: Tree,
}

impl View for ToolCall {
    type V = Call;

    open spec fn view(&self) -> Call {
        Call { id: self.id@, name: self.name@, args: self.args.tree() }
    }
}

/// What calls stand for.
pub open spec fn calls(list: Seq<ToolCall>) -> Seq<Call> {
    Seq::new(list.len(), |i: int| list[i]@)
}

/// What the model replied: calls of tools, or an answer.
pub enum Reply {
    Calls(Vec<ToolCall>),
    Answer(String),
}

/// What a reply stands for.
pub enum Said {
    Calls(Seq<Call>),
    Answer(Seq<char>),
}

impl View for Reply {
    type V = Said;

    open spec fn view(&self) -> Said {
        match self {
            Reply::Calls(list) => Said::Calls(calls(list@)),
            Reply::Answer(s) => Said::Answer(s@),
        }
    }
}

/// A conversation: its messages, the sources that tools have found, and the replies so far.
pub struct ToolChat {
    pub messages: Vec<Json>,
    pub sources: Vec<String>,
    pub rounds: u32,
}

/// A message of a conversation.
pub open spec fn message_tree(role: Seq<char>, content: Seq<char>) -> Tree {
    Tree::empty().with("role"@, Tree::Text(role)).with("content"@, Tree::Text(content))
}

/// A message of a conversation.
pub fn message(role: &str, content: &str) -> (r: Json)
    ensures
        r.tree() == message_tree(role@, content@),
{
    Json::empty().with("role", Json::of(role)).with("content", Json::of(content))
}

/// The messages of a conversation so far.
pub open spec fn history_trees(history: Seq<(String, String)>) -> Seq<Tree> {
    Seq::new(history.len(), |i: int| message_tree(history[i].0@, history[i].1@))
}

/// Appends the messages of a conversation so far.
pub fn push_history(out: &mut Vec<Json>, history: &Vec<(String, String)>)
    ensures
        trees(final(out)@) == trees(old(out)@) + history_trees(history@),
{
    let ghost before = trees(out@);
    let ghost all = history_trees(history@);
    let mut i: usize = 0;
    assert(before + all.take(0) =~= before);
    while i < history.len()
        invariant
            i <= history.len(),
            all == history_trees(history@),
            trees(out@) == before + all.take(i as int),
        decreases history.len() - i,
    {
        let ghost o = out@;
        out.push(message(history[i].0.as_str(), history[i].1.as_str()));
        assert(trees(out@) =~= trees(o).push(all[i as int]));
        assert(all.take(i as int + 1) =~= all.take(i as int).push(all[i as int]));
        assert(trees(out@) =~= before + all.take(i as int + 1));
        i = i + 1;
    }
    assert(all.take(all.len() as int) =~= all);
}

impl ToolChat {
    /// A new conversation for OpenAI's interface: the instructions are its first message.
    pub fn openai(history: &Vec<(String, String)>, system: &str) -> (r: ToolChat)
        ensures
            trees(r.messages@) == seq![message_tree("system"@, system@)] + history_trees(history@),
            r.sources@.len() == 0,
            r.rounds == 0,
    {
        let mut messages: Vec<Json> = Vec::new();
        messages.push(message("system", system));
        assert(trees(messages@) =~= seq![message_tree("system"@, system@)]);
        push_history(&mut messages, history);
        ToolChat { messages, sources: Vec::new(), rounds: 0 }
    }

    /// A new conversation for Anthropic's interface, which takes the instructions apart from the
    /// messages.
    pub fn anthropic(history: &Vec<(String, String)>) -> (r: ToolChat)
        ensures
            trees(r.messages@) == history_trees(history@),
            r.sources@.len() == 0,
            r.rounds == 0,
    {
        let mut messages: Vec<Json> = Vec::new();
        assert(trees(messages@) =~= Seq::empty());
        push_history(&mut messages, history);
        assert(trees(messages@) =~= history_trees(history@));
        ToolChat { messages, sources: Vec::new(), rounds: 0 }
    }

    /// Whether another reply may be asked for.
    pub fn goes_on(&self) -> (r: bool)
        ensures
            r == (self.rounds < MAX_ROUNDS),
    {
        self.rounds < MAX_ROUNDS
    }
}

/// The body of a request to OpenAI's interface.
pub open spec fn openai_body(model: Seq<char>, max_tokens: u32, messages: Seq<Tree>) -> Tree {
    Tree::empty().with(
        "model"@,
        Tree::Text(model),
    ).with(
        "max_tokens"@,
        Tree::Unsigned(max_tokens as u64),
    ).with(
        "messages"@,
        Tree::List(messages),
    ).with(
        "tools"@,
        Tree::List(seq![search_tool_openai_tree(), page_tool_openai_tree()]),
    ).with(
        "stream"@,
        Tree::Bool(false),
    )
}

/// The body of a request to Anthropic's interface.
pub open spec fn anthropic_body(
    model: Seq<char>,
    max_tokens: u32,
    system: Seq<char>,
    messages: Seq<Tree>,
) -> Tree {
    Tree::empty().with(
        "model"@,
        Tree::Text(model),
    ).with(
        "max_tokens"@,
        Tree::Unsigned(max_tokens as u64),
    ).with(
        "system"@,
        Tree::Text(system),
    ).with(
        "messages"@,
        Tree::List(messages),
    ).with(
        "tools"@,
        Tree::List(seq![search_tool_anthropic_tree(), page_tool_anthropic_tree()]),
    )
}

/// A body with further parameters put over it, where they are an object.
pub open spec fn with_extra(body: Tree, extra: Option<Json>) -> Tree {
    match extra {
        Some(e) => match (body, e.tree()) {
            (Tree::Object(list), Tree::Object(more)) => Tree::Object(overlaid(list, more)),
            _ => body,
        },
        None => body,
    }
}

/// Puts further parameters over a body.
pub fn apply_extra(body: Json, extra: &Option<Json>) -> (r: Json)
    ensures
        r.tree() == with_extra(body.tree(), *extra),
{
    match extra {
        Some(e) => body.overlay(e),
        None => body,
    }
}

/// The body of the next request to OpenAI's interface.
pub fn openai_request(
    chat: &ToolChat,
    model: &str,
    max_tokens: u32,
    extra: &Option<Json>,
) -> (r: Json)
    ensures
        r.tree() == with_extra(openai_body(model@, max_tokens, trees(chat.messages@)), *extra),
{
    let body: Json = Json::empty().with("model", Json::of(model)).with(
        "max_tokens",
        Json::Unsigned(max_tokens as u64),
    ).with("messages", Json::list_of(duplicates(&chat.messages))).with(
        "tools",
        Json::pair(search_tool_openai(), page_tool_openai()),
    ).with("stream", Json::Bool(false));
    apply_extra(body, extra)
}

/// The body of the next request to Anthropic's interface.
pub fn anthropic_request(
    chat: &ToolChat,
    model: &str,
    max_tokens: u32,
    system: &str,
    extra: &Option<Json>,
) -> (r: Json)
    ensures
        r.tree() == with_extra(
            anthropic_body(model@, max_tokens, system@, trees(chat.messages@)),
            *extra,
        ),
{
    let body: Json = Json::empty().with("model", Json::of(model)).with(
        "max_tokens",
        Json::Unsigned(max_tokens as u64),
    ).with("system", Json::of(system)).with(
        "messages",
        Json::list_of(duplicates(&chat.messages)),
    ).with("tools", Json::pair(search_tool_anthropic(), page_tool_anthropic()));
    apply_extra(body, extra)
}

/// The arguments of a call, which stand as JSON in a text; nothing where they are no JSON.
pub open spec fn arguments(s: Seq<char>) -> Tree {
    match parsed_json(s) {
        Some(t) => t,
        None => Tree::Null,
    }
}

/// A call in a reply of OpenAI's interface.
pub open spec fn openai_call(t: Tree) -> Call {
    Call {
        id: t.text_or("id"@, ""@),
        name: t.at("function"@).text_or("name"@, ""@),
        args: arguments(t.at("function"@).text_or("arguments"@, "{}"@)),
    }
}

/// The calls in a reply of OpenAI's interface.
pub open spec fn openai_calls(list: Seq<Tree>) -> Seq<Call> {
    Seq::new(list.len(), |i: int| openai_call(list[i]))
}

/// The choice that a reply of OpenAI's interface holds: the first.
pub open spec fn openai_choice(reply: Tree) -> Tree {
    reply.at("choices"@).head()
}

/// The model asks for tools in a reply of OpenAI's interface.
pub open spec fn openai_wants_tools(reply: Tree) -> bool {
    openai_choice(reply).text_or("finish_reason"@, "stop"@) == "tool_calls"@
}

/// What a reply of OpenAI's interface says.
pub open spec fn openai_said(reply: Tree) -> Said {
    let message = openai_choice(reply).at("message"@);
    if openai_wants_tools(reply) {
        Said::Calls(openai_calls(message.list_or_empty("tool_calls"@)))
    } else {
        Said::Answer(message.text_or("content"@, ""@))
    }
}

/// The choice that a reply of OpenAI's interface holds.
fn copy_choice(reply: &Json) -> (r: Json)
    ensures
        r.tree() == openai_choice(reply.tree()),
{
    match reply.list_at("choices") {
        Some(list) => {
            if list.len() > 0 {
                assert(trees(list@)[0] == list@[0].tree());
                list[0].duplicate()
            } else {
                Json::Null
            }
        },
        None => Json::Null,
    }
}

/// A call in a reply of OpenAI's interface.
fn read_openai_call(j: &Json) -> (r: ToolCall)
    ensures
        r@ == openai_call(j.tree()),
{
    let function: Json = j.copy_at("function");
    let args: Json = match parse_json(function.text_or("arguments", "{}")) {
        Some(a) => a,
        None => Json::Null,
    };
    ToolCall {
        id: j.text_or("id", "").to_owned(),
        name: function.text_or("name", "").to_owned(),
        args,
    }
}

/// Takes in a reply of OpenAI's interface. Where the model asks for tools, its message joins the
/// conversation.
pub fn openai_reply(chat: &mut ToolChat, reply: &Json) -> (r: Reply)
    requires
        old(chat).rounds < MAX_ROUNDS,
    ensures
        r@ == openai_said(reply.tree()),
        final(chat).rounds == old(chat).rounds + 1,
        final(chat).sources == old(chat).sources,
        trees(final(chat).messages@) == if openai_wants_tools(reply.tree()) {
            trees(old(chat).messages@).push(openai_choice(reply.tree()).at("message"@))
        } else {
            trees(old(chat).messages@)
        },
{
    chat.rounds = chat.rounds + 1;
    let choice: Json = copy_choice(reply);
    let said: Json = choice.copy_at("message");
    if !same_text(choice.text_or("finish_reason", "stop"), "tool_calls") {
        return Reply::Answer(said.text_or("content", "").to_owned());
    }
    let mut out: Vec<ToolCall> = Vec::new();
    if let Some(list) = said.list_at("tool_calls") {
        let ghost wanted = openai_calls(trees(list@));
        let mut i: usize = 0;
        while i < list.len()
            invariant
                i <= list.len(),
                wanted == openai_calls(trees(list@)),
                out@.len() == i,
                forall|k: int| 0 <= k < i ==> (#[trigger] out@[k])@ == wanted[k],
            decreases list.len() - i,
        {
            let call: ToolCall = read_openai_call(&list[i]);
            out.push(call);
            i = i + 1;
        }
        assert(calls(out@) =~= wanted);
    } else {
        assert(calls(out@) =~= openai_calls(Seq::empty()));
    }
    let ghost before = chat.messages@;
    chat.messages.push(said);
    assert(trees(chat.messages@) =~= trees(before).push(said.tree()));
    Reply::Calls(out)
}

/// The result of a call, as a message for OpenAI's interface.
pub open spec fn openai_result_tree(id: Seq<char>, xml: Seq<char>) -> Tree {
    Tree::empty().with(
        "role"@,
        Tree::Text("tool"@),
    ).with(
        "tool_call_id"@,
        Tree::Text(id),
    ).with(
        "content"@,
        Tree::Text(xml),
    )
}

/// Appends sources to those of a conversation.
pub(crate) fn add_urls(sources: &mut Vec<String>, urls: &Vec<String>)
    ensures
        texts(final(sources)@) == texts(old(sources)@) + texts(urls@),
{
    let ghost before = texts(sources@);
    let ghost all = texts(urls@);
    let mut i: usize = 0;
    assert(before + all.take(0) =~= before);
    while i < urls.len()
        invariant
            i <= urls.len(),
            all == texts(urls@),
            texts(sources@) == before + all.take(i as int),
        decreases urls.len() - i,
    {
        push_text(sources, urls[i].as_str());
        assert(all.take(i as int + 1) =~= all.take(i as int).push(all[i as int]));
        assert(texts(sources@) =~= before + all.take(i as int + 1));
        i = i + 1;
    }
    assert(all.take(all.len() as int) =~= all);
}

/// Takes in the result of a call: it joins the conversation, and its sources join the others.
pub fn openai_result(chat: &mut ToolChat, id: &str, xml: &str, urls: &Vec<String>)
    ensures
        trees(final(chat).messages@) == trees(old(chat).messages@).push(
            openai_result_tree(id@, xml@),
        ),
        texts(final(chat).sources@) == texts(old(chat).sources@) + texts(urls@),
        final(chat).rounds == old(chat).rounds,
{
    let ghost before = chat.messages@;
    let m: Json = Json::empty().with("role", Json::of("tool")).with(
        "tool_call_id",
        Json::of(id),
    ).with("content", Json::of(xml));
    chat.messages.push(m);
    assert(trees(chat.messages@) =~= trees(before).push(m.tree()));
    add_urls(&mut chat.sources, urls);
}

/// A part of a reply of Anthropic's interface is of this type.
pub open spec fn is_block(t: Tree, kind: Seq<char>) -> bool {
    t.text_at("type"@) == Some(kind)
}

/// The calls in a reply of Anthropic's interface.
pub open spec fn anthropic_calls(list: Seq<Tree>) -> Seq<Call>
    decreases list.len(),
{
    if list.len() == 0 {
        Seq::empty()
    } else {
        let before = anthropic_calls(list.drop_last());
        let t = list.last();
        if is_block(t, "tool_use"@) {
            before.push(
                Call { id: t.text_or("id"@, ""@), name: t.text_or("name"@, ""@), args: t.at("input"@) },
            )
        } else {
            before
        }
    }
}

/// The text in a reply of Anthropic's interface: that of its first part of this type.
pub open spec fn anthropic_text(list: Seq<Tree>) -> Seq<char>
    decreases list.len(),
{
    if list.len() == 0 {
        ""@
    } else if is_block(list[0], "text"@) {
        list[0].text_or("text"@, ""@)
    } else {
        anthropic_text(list.drop_first())
    }
}

/// The model asks for tools in a reply of Anthropic's interface.
pub open spec fn anthropic_wants_tools(reply: Tree) -> bool {
    reply.text_or("stop_reason"@, "end_turn"@) == "tool_use"@
}

/// What a reply of Anthropic's interface says.
pub open spec fn anthropic_said(reply: Tree) -> Said {
    let content = reply.list_or_empty("content"@);
    if anthropic_wants_tools(reply) {
        Said::Calls(anthropic_calls(content))
    } else {
        Said::Answer(anthropic_text(content))
    }
}

/// The reply of the model, as a message for Anthropic's interface.
pub open spec fn assistant_tree(content: Seq<Tree>) -> Tree {
    Tree::empty().with("role"@, Tree::Text("assistant"@)).with("content"@, Tree::List(content))
}

/// Whether a part of a reply is of this type.
fn has_type(j: &Json, kind: &str) -> (r: bool)
    ensures
        r == is_block(j.tree(), kind@),
{
    match j.text_at("type") {
        Some(t) => same_text(t, kind),
        None => false,
    }
}

/// The text in a reply of Anthropic's interface.
fn find_anthropic_text(list: &Vec<Json>) -> (r: String)
    ensures
        r@ == anthropic_text(trees(list@)),
{
    let ghost all = trees(list@);
    let mut i: usize = 0;
    assert(all.skip(0) =~= all);
    while i < list.len()
        invariant
            i <= list.len(),
            all == trees(list@),
            anthropic_text(all) == anthropic_text(all.skip(i as int)),
        decreases list.len() - i,
    {
        assert(all.skip(i as int)[0] == list@[i as int].tree());
        assert(all.skip(i as int).drop_first() =~= all.skip(i as int + 1));
        if has_type(&list[i], "text") {
            return list[i].text_or("text", "").to_owned();
        }
        i = i + 1;
    }
    "".to_owned()
}

/// The calls in a reply of Anthropic's interface.
fn find_anthropic_calls(list: &Vec<Json>) -> (r: Vec<ToolCall>)
    ensures
        calls(r@) == anthropic_calls(trees(list@)),
{
    let ghost all = trees(list@);
    let mut out: Vec<ToolCall> = Vec::new();
    let mut i: usize = 0;
    assert(calls(out@) =~= anthropic_calls(all.take(0)));
    while i < list.len()
        invariant
            i <= list.len(),
            all == trees(list@),
            calls(out@) == anthropic_calls(all.take(i as int)),
        decreases list.len() - i,
    {
        let ghost t = all.take(i as int + 1);
        assert(t.drop_last() =~= all.take(i as int));
        assert(t.last() == list@[i as int].tree());
        if has_type(&list[i], "tool_use") {
            let ghost before = out@;
            let call = ToolCall {
                id: list[i].text_or("id", "").to_owned(),
                name: list[i].text_or("name", "").to_owned(),
                args: list[i].copy_at("input"),
            };
            out.push(call);
            assert(calls(out@) =~= calls(before).push(call@));
        }
        i = i + 1;
    }
    assert(all.take(all.len() as int) =~= all);
    out
}

/// Takes in a reply of Anthropic's interface. Where the model asks for tools, its message joins
/// the conversation.
pub fn anthropic_reply(chat: &mut ToolChat, reply: &Json) -> (r: Reply)
    requires
        old(chat).rounds < MAX_ROUNDS,
    ensures
        r@ == anthropic_said(reply.tree()),
        final(chat).rounds == old(chat).rounds + 1,
        final(chat).sources == old(chat).sources,
        trees(final(chat).messages@) == if anthropic_wants_tools(reply.tree()) {
            trees(old(chat).messages@).push(
                assistant_tree(reply.tree().list_or_empty("content"@)),
            )
        } else {
            trees(old(chat).messages@)
        },
{
    chat.rounds = chat.rounds + 1;
    let content: Vec<Json> = match reply.list_at("content") {
        Some(list) => duplicates(list),
        None => Vec::new(),
    };
    assert(trees(content@) =~= reply.tree().list_or_empty("content"@));
    if !same_text(reply.text_or("stop_reason", "end_turn"), "tool_use") {
        return Reply::Answer(find_anthropic_text(&content));
    }
    let out: Vec<ToolCall> = find_anthropic_calls(&content);
    let ghost before = chat.messages@;
    let m: Json = Json::empty().with("role", Json::of("assistant")).with(
        "content",
        Json::list_of(content),
    );
    chat.messages.push(m);
    assert(trees(chat.messages@) =~= trees(before).push(m.tree()));
    Reply::Calls(out)
}

/// The result of a call, as a part of a message for Anthropic's interface.
pub open spec fn anthropic_result_tree(id: Seq<char>, xml: Seq<char>) -> Tree {
    Tree::empty().with(
        "type"@,
        Tree::Text("tool_result"@),
    ).with(
        "tool_use_id"@,
        Tree::Text(id),
    ).with(
        "content"@,
        Tree::Text(xml),
    )
}

/// The results of calls, as parts of a message for Anthropic's interface.
pub open spec fn anthropic_results_of(list: Seq<(String, String)>) -> Seq<Tree> {
    Seq::new(list.len(), |i: int| anthropic_result_tree(list[i].0@, list[i].1@))
}

/// Results as a message for Anthropic's interface.
pub open spec fn user_results_tree(results: Seq<Tree>) -> Tree {
    Tree::empty().with("role"@, Tree::Text("user"@)).with("content"@, Tree::List(results))
}

/// Takes in the results of all calls of a reply, each with the number of its call: they join the
/// conversation as one message, and the sources join the others.
pub fn anthropic_results(chat: &mut ToolChat, results: &Vec<(String, String)>, urls: &Vec<String>)
    ensures
        trees(final(chat).messages@) == trees(old(chat).messages@).push(
            user_results_tree(anthropic_results_of(results@)),
        ),
        texts(final(chat).sources@) == texts(old(chat).sources@) + texts(urls@),
        final(chat).rounds == old(chat).rounds,
{
    let mut parts: Vec<Json> = Vec::new();
    let mut i: usize = 0;
    while i < results.len()
        invariant
            i <= results.len(),
            parts@.len() == i,
            forall|k: int|
                0 <= k < i ==> (#[trigger] parts@[k]).tree() == anthropic_results_of(results@)[k],
        decreases results.len() - i,
    {
        let part: Json = Json::empty().with("type", Json::of("tool_result")).with(
            "tool_use_id",
            Json::of(results[i].0.as_str()),
        ).with("content", Json::of(results[i].1.as_str()));
        parts.push(part);
        i = i + 1;
    }
    assert(trees(parts@) =~= anthropic_results_of(results@));
    let ghost before = chat.messages@;
    let m: Json = Json::empty().with("role", Json::of("user")).with(
        "content",
        Json::list_of(parts),
    );
    chat.messages.push(m);
    assert(trees(chat.messages@) =~= trees(before).push(m.tree()));
    add_urls(&mut chat.sources, urls);
}

/// The calls of a reply are all its parts that use a tool, in their order, each with its number,
/// its tool and its input; its text is that of its first part of text.
pub proof fn law_every_part_of_a_reply_counts(list: Seq<Tree>)
    ensures
        picked(
            list.len(),
            anthropic_calls(list),
            |i: int| list[i].text_at("type"@) == Some("tool_use"@),
            |i: int|
                Call {
                    id: list[i].text_or("id"@, ""@),
                    name: list[i].text_or("name"@, ""@),
                    args: list[i].at("input"@),
                },
        ),
    decreases list.len(),
{
    let chosen = |i: int| list[i].text_at("type"@) == Some("tool_use"@);
    let gives = |i: int|
        Call {
            id: list[i].text_or("id"@, ""@),
            name: list[i].text_or("name"@, ""@),
            args: list[i].at("input"@),
        };
    if list.len() == 0 {
        lemma_picked_none(chosen, gives);
    } else {
        let init = list.drop_last();
        law_every_part_of_a_reply_counts(init);
        lemma_picked_one_more(
            init.len(),
            anthropic_calls(init),
            |i: int| init[i].text_at("type"@) == Some("tool_use"@),
            |i: int|
                Call {
                    id: init[i].text_or("id"@, ""@),
                    name: init[i].text_or("name"@, ""@),
                    args: init[i].at("input"@),
                },
            anthropic_calls(list),
            chosen,
            gives,
        );
    }
}

/// The text of a reply is that of its first part that is text.
pub proof fn law_the_first_text_of_a_reply_counts(list: Seq<Tree>, i: int)
    requires
        0 <= i < list.len(),
        list[i].text_at("type"@) == Some("text"@),
        forall|k: int| 0 <= k < i ==> (#[trigger] list[k]).text_at("type"@) != Some("text"@),
    ensures
        anthropic_text(list) == list[i].text_or("text"@, ""@),
    decreases list.len(),
{
    if i > 0 {
        assert(list[0].text_at("type"@) != Some("text"@));
        let rest = list.drop_first();
        assert forall|k: int| 0 <= k < i - 1 implies (#[trigger] rest[k]).text_at("type"@) != Some(
            "text"@,
        ) by {
            assert(list[k + 1].text_at("type"@) != Some("text"@));
        }
        law_the_first_text_of_a_reply_counts(rest, i - 1);
    }
}

/// A reply calls tools exactly where it says that this is why it stopped; otherwise it is an
/// answer.
pub proof fn law_what_a_reply_is(reply: Tree)
    ensures
        anthropic_said(reply) is Calls <==> reply.text_at("stop_reason"@) == Some("tool_use"@),
        openai_said(reply) is Calls <==> reply.at("choices"@).head().text_at("finish_reason"@)
            == Some("tool_calls"@),
        anthropic_said(reply) matches Said::Calls(list) ==> list == anthropic_calls(
            reply.list_or_empty("content"@),
        ),
        anthropic_said(reply) matches Said::Answer(s) ==> s == anthropic_text(
            reply.list_or_empty("content"@),
        ),
        openai_said(reply) matches Said::Answer(s) ==> s == reply.at("choices"@).head().at(
            "message"@,
        ).text_or("content"@, ""@),
        openai_said(reply) matches Said::Calls(list) ==> {
            let calls = reply.at("choices"@).head().at("message"@).list_or_empty("tool_calls"@);
            &&& list.len() == calls.len()
            &&& forall|i: int|
                0 <= i < calls.len() ==> (#[trigger] list[i]).id == calls[i].text_or("id"@, ""@)
                    && list[i].name == calls[i].at("function"@).text_or("name"@, ""@)
        },
{
    reveal_strlit("end_turn");
    reveal_strlit("tool_use");
    reveal_strlit("stop");
    reveal_strlit("tool_calls");
    assert("end_turn"@[0] == 'e' && "tool_use"@[0] == 't');
    assert("stop"@[0] == 's' && "tool_calls"@[0] == 't');
}

/// What a tool gives is handed to the model under the number of the call.
pub proof fn law_results_carry_the_number_of_the_call(id: Seq<char>, xml: Seq<char>)
    ensures
        openai_result_tree(id, xml) == Tree::Object(
            seq![
                ("role"@, Tree::Text("tool"@)),
                ("tool_call_id"@, Tree::Text(id)),
                ("content"@, Tree::Text(xml)),
            ],
        ),
        anthropic_result_tree(id, xml) == Tree::Object(
            seq![
                ("type"@, Tree::Text("tool_result"@)),
                ("tool_use_id"@, Tree::Text(id)),
                ("content"@, Tree::Text(xml)),
            ],
        ),
{
    assert(openai_result_tree(id, xml)->Object_0 =~= seq![
        ("role"@, Tree::Text("tool"@)),
        ("tool_call_id"@, Tree::Text(id)),
        ("content"@, Tree::Text(xml)),
    ]);
    assert(anthropic_result_tree(id, xml)->Object_0 =~= seq![
        ("type"@, Tree::Text("tool_result"@)),
        ("tool_use_id"@, Tree::Text(id)),
        ("content"@, Tree::Text(xml)),
    ]);
}

} // verus!
