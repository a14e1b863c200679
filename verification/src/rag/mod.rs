//! Answers grounded in the visited pages.

pub mod context;
pub mod talk;
pub mod tools;

use vstd::prelude::*;
use vstd::string::*;

use crate::config::{LlmProvider, LlmSettings};
use crate::json::{parse_json, parsed_json, trees, Json, Tree};
use crate::rag::tools::{history_trees, message, message_tree, push_history};
use crate::text::{copied, opt, same_text};

verus! {

/// An answer, and the URLs of the pages that it rests on.
#[derive(Debug, Clone)]
pub struct AskResponse {
    pub answer: String,
    pub sources: Vec<String>,
}

/// How a model is reached.
pub struct LlmClient {
    pub provider: LlmProvider,
    pub base_url: String,
    pub model: String,
    pub api_key: Option<String>,
    pub max_tokens: u32,
    pub extra_params: Option<Json>,
}

/// The interface that a provider has.
#[derive(Debug, Clone, Copy, PartialEq, Eq, Structural)]
pub enum Interface {
    Disabled,
    Openai,
    Anthropic,
}

/// The interface that a provider has.
pub open spec fn interface_of(provider: LlmProvider) -> Interface {
    match provider {
        LlmProvider::Disabled => Interface::Disabled,
        LlmProvider::Anthropic => Interface::Anthropic,
        LlmProvider::LmStudio | LlmProvider::Openai => Interface::Openai,
    }
}

/// The trees that further parameters stand for, and none where they are missing or no JSON.
pub open spec fn extra_tree(extra: Option<Seq<char>>) -> Option<Tree> {
    match extra {
        Some(s) => parsed_json(s),
        None => None,
    }
}

impl LlmClient {
    /// The model that is configured. Further parameters that are no JSON do not count.
    pub fn new(settings: &LlmSettings, max_tokens: u32, extra_params: &Option<String>) -> (r: Self)
        ensures
            r.provider == settings.provider,
            r.base_url@ == settings.base_url@,
            r.model@ == settings.model@,
            opt(r.api_key) == opt(settings.api_key),
            r.max_tokens == max_tokens,
            match r.extra_params {
                Some(j) => extra_tree(opt(*extra_params)) == Some(j.tree()),
                None => extra_tree(opt(*extra_params)) is None,
            },
    {
        let extra: Option<Json> = match extra_params {
            Some(s) => parse_json(s.as_str()),
            None => None,
        };
        LlmClient {
            provider: settings.provider,
            base_url: settings.base_url.clone(),
            model: settings.model.clone(),
            api_key: copied(&settings.api_key),
            max_tokens,
            extra_params: extra,
        }
    }

    /// The interface that the provider has.
    pub fn interface(&self) -> (r: Interface)
        ensures
            r == interface_of(self.provider),
    {
        match self.provider {
            LlmProvider::Disabled => Interface::Disabled,
            LlmProvider::Anthropic => Interface::Anthropic,
            LlmProvider::LmStudio | LlmProvider::Openai => Interface::Openai,
        }
    }

    /// Where messages are sent. Anthropic's interface has one place, whatever is configured.
    pub fn endpoint(&self) -> (r: String)
        ensures
            r@ == match interface_of(self.provider) {
                Interface::Anthropic => "https://api.anthropic.com/v1/messages"@,
                _ => self.base_url@ + "/v1/chat/completions"@,
            },
    {
        match self.provider {
            LlmProvider::Anthropic => "https://api.anthropic.com/v1/messages".to_owned(),
            _ => {
                let mut out: String = self.base_url.clone();
                out.append("/v1/chat/completions");
                out
            },
        }
    }

    /// Where LM Studio lists its models.
    pub fn models_endpoint(&self) -> (r: String)
        ensures
            r@ == self.base_url@ + "/api/v1/models"@,
    {
        let mut out: String = self.base_url.clone();
        out.append("/api/v1/models");
        out
    }

    /// Where LM Studio is asked to load a model.
    pub fn load_endpoint(&self) -> (r: String)
        ensures
            r@ == self.base_url@ + "/api/v1/models/load"@,
    {
        let mut out: String = self.base_url.clone();
        out.append("/api/v1/models/load");
        out
    }

    /// The header that authorises a request to OpenAI's interface; none without a key.
    pub fn bearer(&self) -> (r: Option<String>)
        ensures
            opt(r) == match self.api_key {
                Some(k) => Some("Bearer "@ + k@),
                None => None,
            },
    {
        match &self.api_key {
            Some(k) => {
                let mut out: String = "Bearer ".to_owned();
                out.append(k.as_str());
                Some(out)
            },
            None => None,
        }
    }

    /// The key that authorises a request to Anthropic's interface; empty where there is none.
    pub fn anthropic_key(&self) -> (r: String)
        ensures
            r@ == match self.api_key {
                Some(k) => k@,
                None => ""@,
            },
    {
        match &self.api_key {
            Some(k) => k.clone(),
            None => "".to_owned(),
        }
    }

    /// The body of a request to OpenAI's interface with a conversation.
    pub fn openai_conversation(
        &self,
        history: &Vec<(String, String)>,
        system: &Option<String>,
    ) -> (r: Json)
        ensures
            r.tree() == openai_conversation_tree(
                self.model@,
                opt(*system),
                history_trees(history@),
            ),
    {
        let mut messages: Vec<Json> = Vec::new();
        if let Some(s) = system {
            messages.push(message("system", s.as_str()));
        }
        assert(trees(messages@) =~= system_trees(opt(*system)));
        push_history(&mut messages, history);
        Json::empty().with("model", Json::of(self.model.as_str())).with(
            "messages",
            Json::list_of(messages),
        ).with("stream", Json::Bool(false))
    }

    /// The body of a request to Anthropic's interface with a conversation.
    pub fn anthropic_conversation(
        &self,
        history: &Vec<(String, String)>,
        system: &Option<String>,
    ) -> (r: Json)
        ensures
            r.tree() == anthropic_conversation_tree(
                self.model@,
                self.max_tokens,
                opt(*system),
                history_trees(history@),
            ),
    {
        let mut messages: Vec<Json> = Vec::new();
        assert(trees(messages@) =~= Seq::empty());
        push_history(&mut messages, history);
        assert(trees(messages@) =~= history_trees(history@));
        let body: Json = Json::empty().with("model", Json::of(self.model.as_str())).with(
            "max_tokens",
            Json::Unsigned(self.max_tokens as u64),
        ).with("messages", Json::list_of(messages));
        match system {
            Some(s) => body.with("system", Json::of(s.as_str())),
            None => body,
        }
    }
}

/// The instructions as the first message, where there are any.
pub open spec fn system_trees(system: Option<Seq<char>>) -> Seq<Tree> {
    match system {
        Some(s) => seq![message_tree("system"@, s)],
        None => Seq::empty(),
    }
}

/// The body of a request to OpenAI's interface with a conversation.
pub open spec fn openai_conversation_tree(
    model: Seq<char>,
    system: Option<Seq<char>>,
    history: Seq<Tree>,
) -> Tree {
    Tree::empty().with("model"@, Tree::Text(model)).with(
        "messages"@,
        Tree::List(system_trees(system) + history),
    ).with("stream"@, Tree::Bool(false))
}

/// The body of a request to Anthropic's interface with a conversation; the instructions stand
/// apart from the messages, and are left out where there are none.
pub open spec fn anthropic_conversation_tree(
    model: Seq<char>,
    max_tokens: u32,
    system: Option<Seq<char>>,
    history: Seq<Tree>,
) -> Tree {
    let body = Tree::empty().with("model"@, Tree::Text(model)).with(
        "max_tokens"@,
        Tree::Unsigned(max_tokens as u64),
    ).with("messages"@, Tree::List(history));
    match system {
        Some(s) => body.with("system"@, Tree::Text(s)),
        None => body,
    }
}

/// A conversation of one message.
pub fn single_message(prompt: &str) -> (r: Vec<(String, String)>)
    ensures
        history_trees(r@) == seq![message_tree("user"@, prompt@)],
{
    let r: Vec<(String, String)> = vec![("user".to_owned(), prompt.to_owned())];
    assert(history_trees(r@) =~= seq![message_tree("user"@, prompt@)]);
    r
}

/// The answer in a reply of OpenAI's interface: the text of the first choice, and nothing where
/// there is none.
pub fn openai_answer(choices: &Vec<String>) -> (r: String)
    ensures
        r@ == if choices@.len() > 0 {
            choices@[0]@
        } else {
            ""@
        },
{
    if choices.len() > 0 {
        choices[0].clone()
    } else {
        "".to_owned()
    }
}

/// The answer in a reply of Anthropic's interface: the text of the first part of type `text`,
/// and nothing where there is none or it has none.
pub open spec fn first_text_part(parts: Seq<(String, Option<String>)>) -> Seq<char>
    decreases parts.len(),
{
    if parts.len() == 0 {
        ""@
    } else if parts[0].0@ == "text"@ {
        match parts[0].1 {
            Some(s) => s@,
            None => ""@,
        }
    } else {
        first_text_part(parts.drop_first())
    }
}

/// The answer in a reply of Anthropic's interface.
pub fn anthropic_answer(parts: &Vec<(String, Option<String>)>) -> (r: String)
    ensures
        r@ == first_text_part(parts@),
{
    let mut i: usize = 0;
    assert(parts@.skip(0) =~= parts@);
    while i < parts.len()
        invariant
            i <= parts.len(),
            first_text_part(parts@) == first_text_part(parts@.skip(i as int)),
        decreases parts.len() - i,
    {
        let ghost rest = parts@.skip(i as int);
        assert(rest[0] == parts@[i as int]);
        assert(rest.drop_first() =~= parts@.skip(i as int + 1));
        if same_text(parts[i].0.as_str(), "text") {
            return match &parts[i].1 {
                Some(s) => s.clone(),
                None => "".to_owned(),
            };
        }
        i = i + 1;
    }
    "".to_owned()
}

/// Why a request failed that was answered with an error.
pub fn reply_error(interface: Interface, status: &str, body: &str) -> (r: String)
    ensures
        r@ == (if interface == Interface::Anthropic {
            "Anthropic returned "@
        } else {
            "LLM returned "@
        }) + status@ + ": "@ + body@,
{
    let mut out: String = if interface == Interface::Anthropic {
        "Anthropic returned ".to_owned()
    } else {
        "LLM returned ".to_owned()
    };
    out.append(status);
    out.append(": ");
    out.append(body);
    out
}

/// What LM Studio says of a model.
#[derive(Debug, Clone, Copy, PartialEq, Eq, Structural)]
pub enum ModelState {
    Loaded,
    NotLoaded,
    Unknown,
}

/// What LM Studio says of a model, by the first entry with its name.
pub open spec fn model_state_in(models: Seq<(String, bool)>, model: Seq<char>) -> ModelState
    decreases models.len(),
{
    if models.len() == 0 {
        ModelState::Unknown
    } else if models[0].0@ == model {
        if models[0].1 {
            ModelState::Loaded
        } else {
            ModelState::NotLoaded
        }
    } else {
        model_state_in(models.drop_first(), model)
    }
}

/// What LM Studio says of a model: its list has the names of models and whether they are loaded.
pub fn model_state(models: &Vec<(String, bool)>, model: &str) -> (r: ModelState)
    ensures
        r == model_state_in(models@, model@),
{
    let mut i: usize = 0;
    assert(models@.skip(0) =~= models@);
    while i < models.len()
        invariant
            i <= models.len(),
            model_state_in(models@, model@) == model_state_in(models@.skip(i as int), model@),
        decreases models.len() - i,
    {
        let ghost rest = models@.skip(i as int);
        assert(rest[0] == models@[i as int]);
        assert(rest.drop_first() =~= models@.skip(i as int + 1));
        if same_text(models[i].0.as_str(), model) {
            return if models[i].1 {
                ModelState::Loaded
            } else {
                ModelState::NotLoaded
            };
        }
        i = i + 1;
    }
    ModelState::Unknown
}

/// A conversation without tools is handed to the model whole: its instructions, where there are
/// any, and every message in its order.
pub proof fn law_conversations_are_handed_over_whole(
    model: Seq<char>,
    max_tokens: u32,
    system: Seq<char>,
    history: Seq<Tree>,
)
    ensures
        openai_conversation_tree(model, Some(system), history) == Tree::Object(
            seq![
                ("model"@, Tree::Text(model)),
                ("messages"@, Tree::List(seq![message_tree("system"@, system)] + history)),
                ("stream"@, Tree::Bool(false)),
            ],
        ),
        openai_conversation_tree(model, None, history) == Tree::Object(
            seq![
                ("model"@, Tree::Text(model)),
                ("messages"@, Tree::List(history)),
                ("stream"@, Tree::Bool(false)),
            ],
        ),
        anthropic_conversation_tree(model, max_tokens, Some(system), history) == Tree::Object(
            seq![
                ("model"@, Tree::Text(model)),
                ("max_tokens"@, Tree::Unsigned(max_tokens as u64)),
                ("messages"@, Tree::List(history)),
                ("system"@, Tree::Text(system)),
            ],
        ),
        anthropic_conversation_tree(model, max_tokens, None, history) == Tree::Object(
            seq![
                ("model"@, Tree::Text(model)),
                ("max_tokens"@, Tree::Unsigned(max_tokens as u64)),
                ("messages"@, Tree::List(history)),
            ],
        ),
{
    assert(Seq::<Tree>::empty() + history =~= history);
    assert(openai_conversation_tree(model, Some(system), history)->Object_0 =~= seq![
        ("model"@, Tree::Text(model)),
        ("messages"@, Tree::List(seq![message_tree("system"@, system)] + history)),
        ("stream"@, Tree::Bool(false)),
    ]);
    assert(openai_conversation_tree(model, None, history)->Object_0 =~= seq![
        ("model"@, Tree::Text(model)),
        ("messages"@, Tree::List(history)),
        ("stream"@, Tree::Bool(false)),
    ]);
    assert(anthropic_conversation_tree(model, max_tokens, Some(system), history)->Object_0 =~= seq![
        ("model"@, Tree::Text(model)),
        ("max_tokens"@, Tree::Unsigned(max_tokens as u64)),
        ("messages"@, Tree::List(history)),
        ("system"@, Tree::Text(system)),
    ]);
    assert(anthropic_conversation_tree(model, max_tokens, None, history)->Object_0 =~= seq![
        ("model"@, Tree::Text(model)),
        ("max_tokens"@, Tree::Unsigned(max_tokens as u64)),
        ("messages"@, Tree::List(history)),
    ]);
}

/// The state of a model is that of the first entry with its name, and unknown where there is none.
pub proof fn law_the_first_entry_of_a_model_counts(models: Seq<(String, bool)>, model: Seq<char>)
    ensures
        (forall|i: int| 0 <= i < models.len() ==> (#[trigger] models[i]).0@ != model)
            ==> model_state_in(models, model) is Unknown,
        forall|i: int|
            0 <= i < models.len() && (#[trigger] models[i]).0@ == model && (forall|k: int|
                0 <= k < i ==> (#[trigger] models[k]).0@ != model) ==> model_state_in(models, model)
                == if models[i].1 {
                ModelState::Loaded
            } else {
                ModelState::NotLoaded
            },
    decreases models.len(),
{
    if models.len() > 0 && models[0].0@ != model {
        let rest = models.drop_first();
        law_the_first_entry_of_a_model_counts(rest, model);
        if forall|i: int| 0 <= i < models.len() ==> (#[trigger] models[i]).0@ != model {
            assert forall|i: int| 0 <= i < rest.len() implies (#[trigger] rest[i]).0@ != model by {
                assert(models[i + 1].0@ != model);
            }
        }
        assert forall|i: int|
            0 <= i < models.len() && (#[trigger] models[i]).0@ == model && (forall|k: int|
                0 <= k < i ==> (#[trigger] models[k]).0@ != model) implies model_state_in(
            models,
            model,
        ) == if models[i].1 {
            ModelState::Loaded
        } else {
            ModelState::NotLoaded
        } by {
            assert(rest[i - 1] == models[i]);
            assert forall|k: int| 0 <= k < i - 1 implies (#[trigger] rest[k]).0@ != model by {
                assert(models[k + 1].0@ != model);
            }
        }
    }
}

} // verus!
