//! The index as a server of tools, over JSON-RPC.

use vstd::prelude::*;
use vstd::string::*;

use crate::index::query::{entries, Entry, PageEntry};
use crate::index::search::{founds, Found, SearchResult};
use crate::json::{trees, Json, Tree};
use crate::text::{
    at_most, contains_text, decimal, has_prefix, has_suffix, join, joined,
    law_joined_texts_are_there, lemma_stands_between, lemma_stands_within, pairs, push_decimal,
    same_text, take_chars, texts,
};

verus! {

/// What the server says of itself.
pub open spec fn handle_initialize_tree() -> Tree {
    Tree::empty().with(
        "protocolVersion"@,
        Tree::Text("2024-11-05"@),
    ).with(
        "capabilities"@,
        Tree::empty().with(
            "tools"@,
            Tree::empty(),
        ),
    ).with(
        "serverInfo"@,
        Tree::empty().with(
            "name"@,
            Tree::Text("memoir"@),
        ).with(
            "version"@,
            Tree::Text("0.1"@),
        ),
    )
}

/// What the server says of itself.
pub fn handle_initialize() -> (r: Json)
    ensures
        r.tree() == handle_initialize_tree(),
{
    Json::empty().with(
        "protocolVersion",
        Json::of("2024-11-05"),
    ).with(
        "capabilities",
        Json::empty().with(
            "tools",
            Json::empty(),
        ),
    ).with(
        "serverInfo",
        Json::empty().with(
            "name",
            Json::of("memoir"),
        ).with(
            "version",
            Json::of("0.1"),
        ),
    )
}

/// The tool that searches the index.
pub open spec fn search_tool_tree() -> Tree {
    Tree::empty().with(
        "name"@,
        Tree::Text("search"@),
    ).with(
        "description"@,
        Tree::Text("Full-text search across your indexed browsing history."@),
    ).with(
        "inputSchema"@,
        Tree::empty().with(
            "type"@,
            Tree::Text("object"@),
        ).with(
            "properties"@,
            Tree::empty().with(
                "query"@,
                Tree::empty().with(
                    "type"@,
                    Tree::Text("string"@),
                ).with(
                    "description"@,
                    Tree::Text("Search terms"@),
                ),
            ).with(
                "limit"@,
                Tree::empty().with(
                    "type"@,
                    Tree::Text("integer"@),
                ).with(
                    "description"@,
                    Tree::Text("Max results (default 10)"@),
                ),
            ),
        ).with(
            "required"@,
            Tree::List(
                seq![
                    Tree::Text("query"@),
                ],
            ),
        ),
    )
}

/// The tool that searches the index.
pub fn search_tool() -> (r: Json)
    ensures
        r.tree() == search_tool_tree(),
{
    Json::empty().with(
        "name",
        Json::of("search"),
    ).with(
        "description",
        Json::of("Full-text search across your indexed browsing history."),
    ).with(
        "inputSchema",
        Json::empty().with(
            "type",
            Json::of("object"),
        ).with(
            "properties",
            Json::empty().with(
                "query",
                Json::empty().with(
                    "type",
                    Json::of("string"),
                ).with(
                    "description",
                    Json::of("Search terms"),
                ),
            ).with(
                "limit",
                Json::empty().with(
                    "type",
                    Json::of("integer"),
                ).with(
                    "description",
                    Json::of("Max results (default 10)"),
                ),
            ),
        ).with(
            "required",
            Json::only(Json::of("query")),
        ),
    )
}

/// The tool that answers a question.
pub open spec fn ask_tool_tree() -> Tree {
    Tree::empty().with(
        "name"@,
        Tree::Text("ask"@),
    ).with(
        "description"@,
        Tree::Text("Ask a question; returns an answer grounded in your browsing history."@),
    ).with(
        "inputSchema"@,
        Tree::empty().with(
            "type"@,
            Tree::Text("object"@),
        ).with(
            "properties"@,
            Tree::empty().with(
                "query"@,
                Tree::empty().with(
                    "type"@,
                    Tree::Text("string"@),
                ).with(
                    "description"@,
                    Tree::Text("Question to answer"@),
                ),
            ).with(
                "k"@,
                Tree::empty().with(
                    "type"@,
                    Tree::Text("integer"@),
                ).with(
                    "description"@,
                    Tree::Text("Number of pages to retrieve (default 5)"@),
                ),
            ),
        ).with(
            "required"@,
            Tree::List(
                seq![
                    Tree::Text("query"@),
                ],
            ),
        ),
    )
}

/// The tool that answers a question.
pub fn ask_tool() -> (r: Json)
    ensures
        r.tree() == ask_tool_tree(),
{
    Json::empty().with(
        "name",
        Json::of("ask"),
    ).with(
        "description",
        Json::of("Ask a question; returns an answer grounded in your browsing history."),
    ).with(
        "inputSchema",
        Json::empty().with(
            "type",
            Json::of("object"),
        ).with(
            "properties",
            Json::empty().with(
                "query",
                Json::empty().with(
                    "type",
                    Json::of("string"),
                ).with(
                    "description",
                    Json::of("Question to answer"),
                ),
            ).with(
                "k",
                Json::empty().with(
                    "type",
                    Json::of("integer"),
                ).with(
                    "description",
                    Json::of("Number of pages to retrieve (default 5)"),
                ),
            ),
        ).with(
            "required",
            Json::only(Json::of("query")),
        ),
    )
}

/// The tool that reads a page.
pub open spec fn page_tool_tree() -> Tree {
    Tree::empty().with(
        "name"@,
        Tree::Text("get_page"@),
    ).with(
        "description"@,
        Tree::Text("Retrieve the stored content of a specific page by URL."@),
    ).with(
        "inputSchema"@,
        Tree::empty().with(
            "type"@,
            Tree::Text("object"@),
        ).with(
            "properties"@,
            Tree::empty().with(
                "url"@,
                Tree::empty().with(
                    "type"@,
                    Tree::Text("string"@),
                ).with(
                    "description"@,
                    Tree::Text("Exact URL of the page"@),
                ),
            ),
        ).with(
            "required"@,
            Tree::List(
                seq![
                    Tree::Text("url"@),
                ],
            ),
        ),
    )
}

/// The tool that reads a page.
pub fn page_tool() -> (r: Json)
    ensures
        r.tree() == page_tool_tree(),
{
    Json::empty().with(
        "name",
        Json::of("get_page"),
    ).with(
        "description",
        Json::of("Retrieve the stored content of a specific page by URL."),
    ).with(
        "inputSchema",
        Json::empty().with(
            "type",
            Json::of("object"),
        ).with(
            "properties",
            Json::empty().with(
                "url",
                Json::empty().with(
                    "type",
                    Json::of("string"),
                ).with(
                    "description",
                    Json::of("Exact URL of the page"),
                ),
            ),
        ).with(
            "required",
            Json::only(Json::of("url")),
        ),
    )
}

/// The tool that lists the pages visited last.
pub open spec fn recent_tool_tree() -> Tree {
    Tree::empty().with(
        "name"@,
        Tree::Text("get_recent"@),
    ).with(
        "description"@,
        Tree::Text("List recently visited pages from the index, newest first."@),
    ).with(
        "inputSchema"@,
        Tree::empty().with(
            "type"@,
            Tree::Text("object"@),
        ).with(
            "properties"@,
            Tree::empty().with(
                "limit"@,
                Tree::empty().with(
                    "type"@,
                    Tree::Text("integer"@),
                ).with(
                    "description"@,
                    Tree::Text("Max results (default 20)"@),
                ),
            ),
        ),
    )
}

/// The tool that lists the pages visited last.
pub fn recent_tool() -> (r: Json)
    ensures
        r.tree() == recent_tool_tree(),
{
    Json::empty().with(
        "name",
        Json::of("get_recent"),
    ).with(
        "description",
        Json::of("List recently visited pages from the index, newest first."),
    ).with(
        "inputSchema",
        Json::empty().with(
            "type",
            Json::of("object"),
        ).with(
            "properties",
            Json::empty().with(
                "limit",
                Json::empty().with(
                    "type",
                    Json::of("integer"),
                ).with(
                    "description",
                    Json::of("Max results (default 20)"),
                ),
            ),
        ),
    )
}

/// The tool that lists the starred pages.
pub open spec fn starred_tool_tree() -> Tree {
    Tree::empty().with(
        "name"@,
        Tree::Text("get_starred"@),
    ).with(
        "description"@,
        Tree::Text("List pages you have starred / bookmarked."@),
    ).with(
        "inputSchema"@,
        Tree::empty().with(
            "type"@,
            Tree::Text("object"@),
        ).with(
            "properties"@,
            Tree::empty().with(
                "limit"@,
                Tree::empty().with(
                    "type"@,
                    Tree::Text("integer"@),
                ).with(
                    "description"@,
                    Tree::Text("Max results (default 50)"@),
                ),
            ),
        ),
    )
}

/// The tool that lists the starred pages.
pub fn starred_tool() -> (r: Json)
    ensures
        r.tree() == starred_tool_tree(),
{
    Json::empty().with(
        "name",
        Json::of("get_starred"),
    ).with(
        "description",
        Json::of("List pages you have starred / bookmarked."),
    ).with(
        "inputSchema",
        Json::empty().with(
            "type",
            Json::of("object"),
        ).with(
            "properties",
            Json::empty().with(
                "limit",
                Json::empty().with(
                    "type",
                    Json::of("integer"),
                ).with(
                    "description",
                    Json::of("Max results (default 50)"),
                ),
            ),
        ),
    )
}

/// The tools of the server.
pub open spec fn tool_trees() -> Seq<Tree> {
    seq![
        search_tool_tree(),
        ask_tool_tree(),
        page_tool_tree(),
        recent_tool_tree(),
        starred_tool_tree(),
    ]
}

/// The tools of the server.
pub open spec fn tools_list_tree() -> Tree {
    Tree::empty().with("tools"@, Tree::List(tool_trees()))
}

/// The tools of the server.
pub fn handle_tools_list() -> (r: Json)
    ensures
        r.tree() == tools_list_tree(),
{
    let v: Vec<Json> = vec![search_tool(), ask_tool(), page_tool(), recent_tool(), starred_tool()];
    assert(trees(v@) =~= tool_trees());
    Json::empty().with("tools", Json::list_of(v))
}

/// A tool with its arguments.
pub enum Tool {
    Search { query: String, limit: u32 },
    Ask { query: String, k: u32 },
    GetPage { url: String },
    GetRecent { limit: u32 },
    GetStarred { limit: u32 },
}

/// What a tool with its arguments stands for.
pub enum Wanted {
    Search { query: Seq<char>, limit: int },
    Ask { query: Seq<char>, k: int },
    GetPage { url: Seq<char> },
    GetRecent { limit: int },
    GetStarred { limit: int },
}

impl View for Tool {
    type V = Wanted;

    open spec fn view(&self) -> Wanted {
        match self {
            Tool::Search { query, limit } => Wanted::Search { query: query@, limit: *limit as int },
            Tool::Ask { query, k } => Wanted::Ask { query: query@, k: *k as int },
            Tool::GetPage { url } => Wanted::GetPage { url: url@ },
            Tool::GetRecent { limit } => Wanted::GetRecent { limit: *limit as int },
            Tool::GetStarred { limit } => Wanted::GetStarred { limit: *limit as int },
        }
    }
}

/// The number with this name, cut to 32 bits, or another where there is none.
pub open spec fn number_at(args: Tree, name: Seq<char>, other: int) -> int {
    match args.get(name) {
        Some(t) => match t.as_unsigned() {
            Some(n) => n as int % 0x1_0000_0000,
            None => other,
        },
        None => other,
    }
}

/// The number with this name, cut to 32 bits, or another where there is none.
fn read_number(args: &Json, name: &str, other: u32) -> (r: u32)
    ensures
        r == number_at(args.tree(), name@, other as int),
{
    match args.get(name) {
        Some(j) => match j.unsigned() {
            Some(n) => (n % 0x1_0000_0000) as u32,
            None => other,
        },
        None => other,
    }
}

/// The arguments of a call: none where they are missing.
pub open spec fn arguments_of(params: Tree) -> Tree {
    match params.get("arguments"@) {
        Some(t) => t,
        None => Tree::empty(),
    }
}

/// What a call of a tool asks for, or what is wrong with it.
pub open spec fn wanted(params: Tree) -> Result<Wanted, Seq<char>> {
    let args = arguments_of(params);
    match params.text_at("name"@) {
        None => Err("missing tool name"@),
        Some(name) => if name == "search"@ {
            match args.text_at("query"@) {
                Some(query) => Ok(Wanted::Search { query, limit: number_at(args, "limit"@, 10) }),
                None => Err("missing query"@),
            }
        } else if name == "ask"@ {
            match args.text_at("query"@) {
                Some(query) => Ok(Wanted::Ask { query, k: number_at(args, "k"@, 5) }),
                None => Err("missing query"@),
            }
        } else if name == "get_page"@ {
            match args.text_at("url"@) {
                Some(url) => Ok(Wanted::GetPage { url }),
                None => Err("missing url"@),
            }
        } else if name == "get_recent"@ {
            Ok(Wanted::GetRecent { limit: number_at(args, "limit"@, 20) })
        } else if name == "get_starred"@ {
            Ok(Wanted::GetStarred { limit: number_at(args, "limit"@, 50) })
        } else {
            Err("unknown tool: "@ + name)
        },
    }
}

/// What a call of a tool asks for, or what is wrong with it.
pub fn read_tool_call(params: &Json) -> (r: Result<Tool, String>)
    ensures
        match r {
            Ok(tool) => wanted(params.tree()) == Ok::<Wanted, Seq<char>>(tool@),
            Err(e) => wanted(params.tree()) == Err::<Wanted, Seq<char>>(e@),
        },
{
    let name: &str = match params.text_at("name") {
        Some(name) => name,
        None => {
            return Err("missing tool name".to_owned());
        },
    };
    let args: Json = match params.get("arguments") {
        Some(j) => j.duplicate(),
        None => Json::empty(),
    };
    if same_text(name, "search") {
        match args.text_at("query") {
            Some(q) => Ok(
                Tool::Search { query: q.to_owned(), limit: read_number(&args, "limit", 10) },
            ),
            None => Err("missing query".to_owned()),
        }
    } else if same_text(name, "ask") {
        match args.text_at("query") {
            Some(q) => Ok(Tool::Ask { query: q.to_owned(), k: read_number(&args, "k", 5) }),
            None => Err("missing query".to_owned()),
        }
    } else if same_text(name, "get_page") {
        match args.text_at("url") {
            Some(u) => Ok(Tool::GetPage { url: u.to_owned() }),
            None => Err("missing url".to_owned()),
        }
    } else if same_text(name, "get_recent") {
        Ok(Tool::GetRecent { limit: read_number(&args, "limit", 20) })
    } else if same_text(name, "get_starred") {
        Ok(Tool::GetStarred { limit: read_number(&args, "limit", 50) })
    } else {
        let mut e: String = "unknown tool: ".to_owned();
        e.append(name);
        Err(e)
    }
}

/// A message in answer to a request.
pub open spec fn reply_tree(id: Tree, result: Tree) -> Tree {
    Tree::empty().with("jsonrpc"@, Tree::Text("2.0"@)).with("id"@, id).with("result"@, result)
}

/// A message that refuses a request.
pub open spec fn refusal_tree(id: Tree, message: Seq<char>) -> Tree {
    Tree::empty().with("jsonrpc"@, Tree::Text("2.0"@)).with("id"@, id).with(
        "error"@,
        Tree::empty().with("code"@, Tree::Number("-32600"@)).with("message"@, Tree::Text(message)),
    )
}

/// Answers a request, or refuses it.
pub fn respond(id: Json, result: Result<Json, String>) -> (r: Json)
    ensures
        r.tree() == match result {
            Ok(j) => reply_tree(id.tree(), j.tree()),
            Err(e) => refusal_tree(id.tree(), e@),
        },
{
    let head: Json = Json::empty().with("jsonrpc", Json::of("2.0")).with("id", id);
    match result {
        Ok(j) => head.with("result", j),
        Err(e) => head.with(
            "error",
            Json::empty().with("code", Json::Number("-32600".to_owned())).with(
                "message",
                Json::of(e.as_str()),
            ),
        ),
    }
}

/// What a message asks of the server.
pub enum Request {
    /// Nothing: it is a notification.
    Notification,
    /// It is answered at once.
    Answered(Json),
    /// A tool is to be called, and its result sent in answer to the request with this number.
    Call { id: Json, tool: Tool },
}

/// What to do about a message.
pub enum Task {
    Notification,
    Answered(Tree),
    Call { id: Tree, tool: Wanted },
}

impl View for Request {
    type V = Task;

    open spec fn view(&self) -> Task {
        match self {
            Request::Notification => Task::Notification,
            Request::Answered(j) => Task::Answered(j.tree()),
            Request::Call { id, tool } => Task::Call { id: id.tree(), tool: tool@ },
        }
    }
}

/// The parameters of a message: none where they are missing.
pub open spec fn params_of(msg: Tree) -> Tree {
    match msg.get("params"@) {
        Some(t) => t,
        None => Tree::empty(),
    }
}

/// What to do about a message. One without a number is a notification; methods other than the
/// three that the server has are refused.
pub open spec fn task_of(msg: Tree) -> Task {
    match msg.get("id"@) {
        None => Task::Notification,
        Some(id) => {
            let method = msg.text_or("method"@, ""@);
            if method == "initialize"@ {
                Task::Answered(reply_tree(id, handle_initialize_tree()))
            } else if method == "tools/list"@ {
                Task::Answered(reply_tree(id, tools_list_tree()))
            } else if method == "tools/call"@ {
                match wanted(params_of(msg)) {
                    Ok(tool) => Task::Call { id, tool },
                    Err(e) => Task::Answered(refusal_tree(id, e)),
                }
            } else {
                Task::Answered(refusal_tree(id, "unknown method: "@ + method))
            }
        },
    }
}

/// Decides what to do about a message.
pub fn dispatch(msg: &Json) -> (r: Request)
    ensures
        r@ == task_of(msg.tree()),
{
    let id: Json = match msg.get("id") {
        Some(id) => id.duplicate(),
        None => {
            return Request::Notification;
        },
    };
    let method: &str = msg.text_or("method", "");
    if same_text(method, "initialize") {
        Request::Answered(respond(id, Ok(handle_initialize())))
    } else if same_text(method, "tools/list") {
        Request::Answered(respond(id, Ok(handle_tools_list())))
    } else if same_text(method, "tools/call") {
        let params: Json = match msg.get("params") {
            Some(p) => p.duplicate(),
            None => Json::empty(),
        };
        match read_tool_call(&params) {
            Ok(tool) => Request::Call { id, tool },
            Err(e) => Request::Answered(respond(id, Err(e))),
        }
    } else {
        let mut e: String = "unknown method: ".to_owned();
        e.append(method);
        Request::Answered(respond(id, Err(e)))
    }
}

/// Every message with a number is answered with that number, at once or by the tool it calls,
/// and no other message is answered.
pub proof fn law_answers_carry_the_number(msg: Tree)
    ensures
        msg.get("id"@) is None <==> task_of(msg) is Notification,
        msg.get("id"@) matches Some(id) ==> match task_of(msg) {
            Task::Notification => false,
            Task::Answered(reply) => reply.get("id"@) == Some(id),
            Task::Call { id: number, .. } => number == id,
        },
{
    reveal_strlit("jsonrpc");
    reveal_strlit("id");
    assert("jsonrpc"@.len() == 7 && "id"@.len() == 2);
    assert("jsonrpc"@ != "id"@);
    if let Some(id) = msg.get("id"@) {
        assert forall|rest: (Seq<char>, Tree)| #[trigger] Tree::Object(
            Seq::empty().push(("jsonrpc"@, Tree::Text("2.0"@))).push(("id"@, id)).push(rest),
        ).get("id"@) == Some(id) by {
            let list = Seq::<(Seq<char>, Tree)>::empty().push(("jsonrpc"@, Tree::Text("2.0"@))).push(
                ("id"@, id),
            ).push(rest);
            assert(list[0].0 == "jsonrpc"@);
            assert(list.drop_first()[0] == ("id"@, id));
            assert(crate::json::field(list.drop_first(), "id"@) == Some(id));
        }
    }
}

/// The result of a tool: a text.
pub open spec fn content_tree(text: Seq<char>) -> Tree {
    Tree::empty().with(
        "content"@,
        Tree::List(
            seq![Tree::empty().with("type"@, Tree::Text("text"@)).with("text"@, Tree::Text(text))],
        ),
    )
}

/// The result of a tool: a text.
pub fn tool_result(text: &str) -> (r: Json)
    ensures
        r.tree() == content_tree(text@),
{
    Json::empty().with(
        "content",
        Json::only(Json::empty().with("type", Json::of("text")).with("text", Json::of(text))),
    )
}

/// The title of a page, or its URL where it has none.
pub open spec fn shown_title(url: Seq<char>, title: Seq<char>) -> Seq<char> {
    if title.len() == 0 {
        url
    } else {
        title
    }
}

/// The lines of a page that was found.
pub open spec fn found_line(number: nat, f: Found) -> Seq<char> {
    decimal(number) + ". "@ + shown_title(f.url, f.title) + "\n   URL: "@ + f.url + "\n   "@
        + f.snippet
}

/// The pages that were found, as a text.
pub open spec fn found_text(list: Seq<Found>) -> Seq<char> {
    if list.len() == 0 {
        "No results found."@
    } else {
        joined(Seq::new(list.len(), |i: int| found_line((i + 1) as nat, list[i])), "\n\n"@)
    }
}

/// The title of a page, or its URL where it has none.
fn title_or_url<'a>(url: &'a str, title: &'a str) -> (r: &'a str)
    ensures
        r@ == shown_title(url@, title@),
{
    if title.unicode_len() == 0 {
        url
    } else {
        title
    }
}

/// The pages that were found, as a text.
pub fn search_text(results: &Vec<SearchResult>) -> (r: String)
    ensures
        r@ == found_text(founds(results@)),
{
    let total: usize = results.len();
    if total == 0 {
        return "No results found.".to_owned();
    }
    let ghost list = founds(results@);
    let ghost lines = Seq::new(list.len(), |i: int| found_line((i + 1) as nat, list[i]));
    let mut parts: Vec<String> = Vec::new();
    let mut i: usize = 0;
    while i < total
        invariant
            i <= total,
            total == results@.len(),
            list == founds(results@),
            lines == Seq::new(list.len(), |i: int| found_line((i + 1) as nat, list[i])),
            parts@.len() == i,
            forall|k: int| 0 <= k < i ==> (#[trigger] parts@[k])@ == lines[k],
        decreases total - i,
    {
        let f: &SearchResult = &results[i];
        assert(list[i as int] == f@);
        let mut out: String = String::new();
        assert(out@ =~= Seq::empty());
        push_decimal(&mut out, (i + 1) as u64);
        assert(out@ =~= decimal((i + 1) as nat));
        out.append(". ");
        out.append(title_or_url(f.url.as_str(), f.title.as_str()));
        out.append("\n   URL: ");
        out.append(f.url.as_str());
        out.append("\n   ");
        out.append(f.snippet.as_str());
        parts.push(out);
        i = i + 1;
    }
    assert(texts(parts@) =~= lines);
    join(&parts, "\n\n")
}

/// The lines of a page in a list.
pub open spec fn entry_line(number: nat, e: Entry) -> Seq<char> {
    decimal(number) + ". "@ + shown_title(e.url, e.title) + "\n   "@ + e.url
}

/// The pages of a list, as a text, with a notice where there are none.
pub open spec fn list_text(list: Seq<Entry>, none: Seq<char>) -> Seq<char> {
    if list.len() == 0 {
        none
    } else {
        joined(Seq::new(list.len(), |i: int| entry_line((i + 1) as nat, list[i])), "\n\n"@)
    }
}

/// The pages of a list, as a text.
pub fn pages_text(pages: &Vec<PageEntry>, none: &str) -> (r: String)
    ensures
        r@ == list_text(entries(pages@), none@),
{
    let total: usize = pages.len();
    if total == 0 {
        return none.to_owned();
    }
    let ghost list = entries(pages@);
    let ghost lines = Seq::new(list.len(), |i: int| entry_line((i + 1) as nat, list[i]));
    let mut parts: Vec<String> = Vec::new();
    let mut i: usize = 0;
    while i < total
        invariant
            i <= total,
            total == pages@.len(),
            list == entries(pages@),
            lines == Seq::new(list.len(), |i: int| entry_line((i + 1) as nat, list[i])),
            parts@.len() == i,
            forall|k: int| 0 <= k < i ==> (#[trigger] parts@[k])@ == lines[k],
        decreases total - i,
    {
        let e: &PageEntry = &pages[i];
        assert(list[i as int] == e@);
        let mut out: String = String::new();
        push_decimal(&mut out, (i + 1) as u64);
        assert(out@ =~= decimal((i + 1) as nat));
        out.append(". ");
        out.append(title_or_url(e.url.as_str(), e.title.as_str()));
        out.append("\n   ");
        out.append(e.url.as_str());
        parts.push(out);
        i = i + 1;
    }
    assert(texts(parts@) =~= lines);
    join(&parts, "\n\n")
}

/// The pages visited last, as a text.
pub fn recent_text(pages: &Vec<PageEntry>) -> (r: String)
    ensures
        r@ == list_text(entries(pages@), "No pages in index."@),
{
    pages_text(pages, "No pages in index.")
}

/// The starred pages, as a text.
pub fn starred_text(pages: &Vec<PageEntry>) -> (r: String)
    ensures
        r@ == list_text(entries(pages@), "No starred pages."@),
{
    pages_text(pages, "No starred pages.")
}

/// A page as a text, with the first 4000 characters of its text; a notice where there is none.
pub open spec fn page_notice(url: Seq<char>, page: Option<Tree>) -> Seq<char> {
    match page {
        None => "No page found for URL: "@ + url,
        Some(p) => "Title: "@ + p.text_or("title"@, ""@) + "\nURL: "@ + url + "\nStarred: "@ + (if p.get(
            "starred"@,
        ) == Some(Tree::Bool(true)) {
            "true"@
        } else {
            "false"@
        }) + "\nLast visited: "@ + p.text_or("last_visit_at"@, "unknown"@) + "\n\n"@ + at_most(
            p.text_or("body"@, ""@),
            4000,
        ),
    }
}

/// A page as a text.
pub fn page_text(url: &str, page: &Option<Json>) -> (r: String)
    ensures
        r@ == page_notice(
            url@,
            match page {
                Some(p) => Some(p.tree()),
                None => None,
            },
        ),
{
    match page {
        None => {
            let mut out: String = "No page found for URL: ".to_owned();
            out.append(url);
            out
        },
        Some(p) => {
            let starred: bool = match p.get("starred") {
                Some(j) => match j {
                    Json::Bool(b) => *b,
                    _ => false,
                },
                None => false,
            };
            let mut out: String = "Title: ".to_owned();
            out.append(p.text_or("title", ""));
            out.append("\nURL: ");
            out.append(url);
            out.append("\nStarred: ");
            if starred {
                out.append("true");
            } else {
                out.append("false");
            }
            out.append("\nLast visited: ");
            out.append(p.text_or("last_visit_at", "unknown"));
            out.append("\n\n");
            out.append(take_chars(p.text_or("body", ""), 4000));
            out
        },
    }
}

/// A numbered source.
pub open spec fn source_line(number: nat, url: Seq<char>, title: Seq<char>) -> Seq<char> {
    "["@ + decimal(number) + "] "@ + title + " — "@ + url
}

/// An answer with its numbered sources.
pub open spec fn sourced_answer(answer: Seq<char>, sources: Seq<(Seq<char>, Seq<char>)>) -> Seq<
    char,
> {
    answer + "\n\nSources:\n"@ + joined(
        Seq::new(
            sources.len(),
            |i: int| source_line((i + 1) as nat, sources[i].0, sources[i].1),
        ),
        "\n"@,
    )
}

/// An answer with its numbered sources.
pub fn answer_text(answer: &str, sources: &Vec<(String, String)>) -> (r: String)
    ensures
        r@ == sourced_answer(answer@, pairs(sources@)),
{
    let total: usize = sources.len();
    let ghost list = pairs(sources@);
    let ghost lines = Seq::new(
        list.len(),
        |i: int| source_line((i + 1) as nat, list[i].0, list[i].1),
    );
    let mut parts: Vec<String> = Vec::new();
    let mut i: usize = 0;
    while i < total
        invariant
            i <= total,
            total == sources@.len(),
            list == pairs(sources@),
            lines == Seq::new(
                list.len(),
                |i: int| source_line((i + 1) as nat, list[i].0, list[i].1),
            ),
            parts@.len() == i,
            forall|k: int| 0 <= k < i ==> (#[trigger] parts@[k])@ == lines[k],
        decreases total - i,
    {
        let mut out: String = "[".to_owned();
        push_decimal(&mut out, (i + 1) as u64);
        out.append("] ");
        out.append(sources[i].1.as_str());
        out.append(" — ");
        out.append(sources[i].0.as_str());
        parts.push(out);
        i = i + 1;
    }
    assert(texts(parts@) =~= lines);
    let mut out: String = answer.to_owned();
    out.append("\n\nSources:\n");
    out.append(join(&parts, "\n").as_str());
    out
}

/// The number under a name, where it is there and fits thirty-two bits, else another.
pub open spec fn fitting_number(args: Tree, name: Seq<char>, other: int, n: int) -> bool {
    match args.get(name) {
        Some(Tree::Unsigned(m)) => m <= u32::MAX ==> n == m,
        _ => n == other,
    }
}

/// A call is of the tool that it names, with the arguments that it has: a search takes a query and
/// gives ten results unless told, a question takes one and five pages, a page takes its URL; the
/// pages visited last are twenty and the starred ones fifty unless told. What lacks its argument
/// is refused, and so is any other tool.
pub proof fn law_calls_are_of_the_tool_named(params: Tree)
    ensures
        ({
            let args = if params.get("arguments"@) is Some {
                params.get("arguments"@)->0
            } else {
                Tree::empty()
            };
            let name = params.text_at("name"@);
            let call = wanted(params);
            &&& name is None ==> call is Err
            &&& name == Some("search"@) ==> {
                &&& args.text_at("query"@) is None ==> call is Err
                &&& args.text_at("query"@) matches Some(q) ==> call is Ok && call->Ok_0 is Search
                    && call->Ok_0->Search_query == q && fitting_number(
                    args,
                    "limit"@,
                    10,
                    call->Ok_0->Search_limit,
                )
            }
            &&& name == Some("ask"@) ==> {
                &&& args.text_at("query"@) is None ==> call is Err
                &&& args.text_at("query"@) matches Some(q) ==> call is Ok && call->Ok_0 is Ask
                    && call->Ok_0->Ask_query == q && fitting_number(
                    args,
                    "k"@,
                    5,
                    call->Ok_0->k,
                )
            }
            &&& name == Some("get_page"@) ==> {
                &&& args.text_at("url"@) is None ==> call is Err
                &&& args.text_at("url"@) matches Some(url) ==> call == Ok::<Wanted, Seq<char>>(
                    Wanted::GetPage { url },
                )
            }
            &&& name == Some("get_recent"@) ==> call is Ok && call->Ok_0 is GetRecent
                && fitting_number(args, "limit"@, 20, call->Ok_0->GetRecent_limit)
            &&& name == Some("get_starred"@) ==> call is Ok && call->Ok_0 is GetStarred
                && fitting_number(args, "limit"@, 50, call->Ok_0->GetStarred_limit)
            &&& name matches Some(s) ==> s != "search"@ && s != "ask"@ && s != "get_page"@ && s
                != "get_recent"@ && s != "get_starred"@ ==> call is Err
        }),
{
    reveal_strlit("search");
    reveal_strlit("ask");
    reveal_strlit("get_page");
    reveal_strlit("get_recent");
    reveal_strlit("get_starred");
    assert("search"@.len() == 6 && "ask"@.len() == 3 && "get_page"@.len() == 8 && "get_recent"@.len()
        == 10 && "get_starred"@.len() == 11);
}

/// A request is answered by its method: the server introduces itself, lists its tools, or calls
/// one; any other method is refused.
pub proof fn law_requests_go_by_their_method(msg: Tree)
    requires
        msg.get("id"@) is Some,
    ensures
        ({
            let id = msg.get("id"@)->0;
            let params = if msg.get("params"@) is Some {
                msg.get("params"@)->0
            } else {
                Tree::empty()
            };
            let task = task_of(msg);
            &&& msg.text_at("method"@) == Some("initialize"@) ==> task == Task::Answered(
                reply_tree(id, handle_initialize_tree()),
            )
            &&& msg.text_at("method"@) == Some("tools/list"@) ==> task == Task::Answered(
                reply_tree(id, tools_list_tree()),
            )
            &&& msg.text_at("method"@) == Some("tools/call"@) ==> match wanted(params) {
                Ok(tool) => task == (Task::Call { id, tool }),
                Err(e) => task == Task::Answered(refusal_tree(id, e)),
            }
            &&& task is Call ==> msg.text_at("method"@) == Some("tools/call"@)
        }),
{
    reveal_strlit("initialize");
    reveal_strlit("tools/list");
    reveal_strlit("tools/call");
    reveal_strlit("");
    assert("initialize"@[0] == 'i' && "tools/list"@[0] == 't' && "tools/call"@[0] == 't');
    assert("tools/list"@[6] == 'l' && "tools/call"@[6] == 'c');
    assert("tools/call"@.len() == 10 && ""@.len() == 0);
}

/// What is told of results names every one of them, in its order: its number, its title, or its
/// URL where it has none, its URL and its excerpt.
pub proof fn law_every_result_is_told(list: Seq<Found>, pages: Seq<Entry>, none: Seq<char>)
    ensures
        list.len() == 0 ==> found_text(list) == "No results found."@,
        pages.len() == 0 ==> list_text(pages, none) == none,
        forall|i: int|
            0 <= i < list.len() ==> contains_text(
                found_text(list),
                decimal((i + 1) as nat) + ". "@ + (if (#[trigger] list[i]).title.len() == 0 {
                    list[i].url
                } else {
                    list[i].title
                }) + "\n   URL: "@ + list[i].url + "\n   "@ + list[i].snippet,
            ),
        forall|i: int|
            0 <= i < pages.len() ==> contains_text(
                list_text(pages, none),
                decimal((i + 1) as nat) + ". "@ + (if (#[trigger] pages[i]).title.len() == 0 {
                    pages[i].url
                } else {
                    pages[i].title
                }) + "\n   "@ + pages[i].url,
            ),
{
    let a = Seq::new(list.len(), |i: int| found_line((i + 1) as nat, list[i]));
    let b = Seq::new(pages.len(), |i: int| entry_line((i + 1) as nat, pages[i]));
    assert forall|i: int| 0 <= i < list.len() implies contains_text(
        found_text(list),
        decimal((i + 1) as nat) + ". "@ + (if (#[trigger] list[i]).title.len() == 0 {
            list[i].url
        } else {
            list[i].title
        }) + "\n   URL: "@ + list[i].url + "\n   "@ + list[i].snippet,
    ) by {
        law_joined_texts_are_there(a, "\n\n"@, i);
    }
    assert forall|i: int| 0 <= i < pages.len() implies contains_text(
        list_text(pages, none),
        decimal((i + 1) as nat) + ". "@ + (if (#[trigger] pages[i]).title.len() == 0 {
            pages[i].url
        } else {
            pages[i].title
        }) + "\n   "@ + pages[i].url,
    ) by {
        law_joined_texts_are_there(b, "\n\n"@, i);
    }
}

/// An answer is told as it is, and behind it every source with its number, its title and its URL.
pub proof fn law_every_source_is_told(answer: Seq<char>, sources: Seq<(Seq<char>, Seq<char>)>)
    ensures
        has_prefix(sourced_answer(answer, sources), answer),
        forall|i: int|
            0 <= i < sources.len() ==> contains_text(
                sourced_answer(answer, sources),
                "["@ + decimal((i + 1) as nat) + "] "@ + (#[trigger] sources[i]).1 + " — "@
                    + sources[i].0,
            ),
{
    let told = sourced_answer(answer, sources);
    assert(told.subrange(0, answer.len() as int) =~= answer);
    let lines = Seq::new(
        sources.len(),
        |i: int| source_line((i + 1) as nat, sources[i].0, sources[i].1),
    );
    assert forall|i: int| 0 <= i < sources.len() implies contains_text(
        told,
        "["@ + decimal((i + 1) as nat) + "] "@ + (#[trigger] sources[i]).1 + " — "@ + sources[i].0,
    ) by {
        law_joined_texts_are_there(lines, "\n"@, i);
        let front = answer + "\n\nSources:\n"@;
        lemma_stands_within(front, joined(lines, "\n"@), Seq::empty(), lines[i]);
        assert(front + joined(lines, "\n"@) + Seq::<char>::empty() =~= told);
    }
}

/// What is told of a page is its title, its URL, its star, its last visit, and behind them the
/// first four thousand characters of its text.
pub proof fn law_what_is_told_of_a_page(url: Seq<char>, page: Tree)
    ensures
        contains_text(page_notice(url, None), url),
        ({
            let told = page_notice(url, Some(page));
            let body = if page.text_at("body"@) is Some {
                page.text_at("body"@)->0
            } else {
                ""@
            };
            let n = if body.len() < 4000 {
                body.len()
            } else {
                4000
            };
            &&& has_suffix(told, body.take(n as int))
            &&& contains_text(told, "\nURL: "@ + url)
            &&& page.text_at("title"@) matches Some(title) ==> has_prefix(told, "Title: "@ + title)
            &&& page.text_at("last_visit_at"@) matches Some(t) ==> contains_text(
                told,
                "\nLast visited: "@ + t,
            )
            &&& page.get("starred"@) == Some(Tree::Bool(true)) ==> contains_text(
                told,
                "\nStarred: true"@,
            )
            &&& page.get("starred"@) == Some(Tree::Bool(false)) ==> contains_text(
                told,
                "\nStarred: false"@,
            )
        }),
{
    let missing = "No page found for URL: "@;
    lemma_stands_between(missing, url, Seq::empty());
    assert(missing + url + Seq::<char>::empty() =~= page_notice(url, None));
    let told = page_notice(url, Some(page));
    let body = page.text_or("body"@, ""@);
    let shown = at_most(body, 4000);
    if body.len() < 4000 {
        assert(body.take(body.len() as int) =~= body);
    }
    let title = page.text_or("title"@, ""@);
    let star = if page.get("starred"@) == Some(Tree::Bool(true)) {
        "true"@
    } else {
        "false"@
    };
    let last = page.text_or("last_visit_at"@, "unknown"@);
    let p1 = "Title: "@ + title;
    let p2 = "\nURL: "@ + url;
    let p3 = "\nStarred: "@ + star;
    let p4 = "\nLast visited: "@ + last;
    lemma_behind_each_other(p1, "\nURL: "@, url);
    let x2 = p1 + p2;
    lemma_behind_each_other(x2, "\nStarred: "@, star);
    let x3 = x2 + p3;
    lemma_behind_each_other(x3, "\nLast visited: "@, last);
    let x4 = x3 + p4;
    assert(told == x4 + "\n\n"@ + shown);
    lemma_behind_each_other(x4, "\n\n"@, shown);
    lemma_five_parts(p1, p2, p3, p4, "\n\n"@, shown);
    reveal_strlit("\nStarred: ");
    reveal_strlit("\nStarred: true");
    reveal_strlit("\nStarred: false");
    reveal_strlit("true");
    reveal_strlit("false");
    if page.get("starred"@) == Some(Tree::Bool(true)) {
        assert(p3 =~= "\nStarred: true"@);
    }
    if page.get("starred"@) == Some(Tree::Bool(false)) {
        assert(p3 =~= "\nStarred: false"@);
    }
}

proof fn lemma_behind_each_other(a: Seq<char>, b: Seq<char>, c: Seq<char>)
    ensures
        a + b + c == a + (b + c),
{
    assert(a + b + c =~= a + (b + c));
}

proof fn lemma_five_parts(
    p1: Seq<char>,
    p2: Seq<char>,
    p3: Seq<char>,
    p4: Seq<char>,
    sep: Seq<char>,
    shown: Seq<char>,
)
    ensures
        ({
            let told = p1 + p2 + p3 + p4 + (sep + shown);
            &&& has_prefix(told, p1)
            &&& has_suffix(told, shown)
            &&& contains_text(told, p2)
            &&& contains_text(told, p3)
            &&& contains_text(told, p4)
        }),
{
    let p5 = sep + shown;
    let told = p1 + p2 + p3 + p4 + p5;
    assert(told.subrange(0, p1.len() as int) =~= p1);
    let at = told.len() - shown.len();
    assert(told.subrange(at, at + shown.len()) =~= shown);
    lemma_stands_between(p1 + p2 + p3, p4, p5);
    lemma_stands_between(p1 + p2, p3, p4 + p5);
    lemma_behind_each_other(p1 + p2 + p3, p4, p5);
    lemma_stands_between(p1, p2, p3 + (p4 + p5));
    lemma_behind_each_other(p1 + p2, p3, p4 + p5);
}

} // verus!
