//! Fetching one page at once and taking it into the index, as bookmarking and indexing it again
//! do.

use vstd::prelude::*;
use vstd::string::*;

use crate::fetch::extract::{ExtractedPage, Page};
use crate::fetch::recipe::{Recipe, RecipeCard};
use crate::fetch::{FetchResult, Outcome};
use crate::server::handlers::{embedding_text, recipe_choice, recipe_step, RecipeStep};
use crate::text::texts;

verus! {

/// What is to be done with a page.
pub struct PagePlan {
    pub url: String,
    /// Whether its recipe is looked for.
    pub recipes: bool,
    /// Whether there is an embedding model.
    pub embeds: bool,
}

/// How far the page has come.
pub enum PageStage {
    /// Nothing is done yet.
    Begin,
    /// The page is being fetched.
    Fetching,
    /// The page is being stored.
    Storing(ExtractedPage),
    /// The hosts that are passed over in the search for recipes are being listed.
    Asking(ExtractedPage),
    /// What is known of its recipe is being stored; the text for the model is kept.
    Keeping(String),
    /// The page is being embedded.
    Embedding,
    /// The embedding is being stored.
    Saving,
    /// Everything is done.
    Finished,
}

/// What a stage stands for.
pub enum PageAt {
    Begin,
    Fetching,
    Storing(Page),
    Asking(Page),
    Keeping(Seq<char>),
    Embedding,
    Saving,
    Finished,
}

impl View for PageStage {
    type V = PageAt;

    open spec fn view(&self) -> PageAt {
        match self {
            PageStage::Begin => PageAt::Begin,
            PageStage::Fetching => PageAt::Fetching,
            PageStage::Storing(page) => PageAt::Storing(page@),
            PageStage::Asking(page) => PageAt::Asking(page@),
            PageStage::Keeping(text) => PageAt::Keeping(text@),
            PageStage::Embedding => PageAt::Embedding,
            PageStage::Saving => PageAt::Saving,
            PageStage::Finished => PageAt::Finished,
        }
    }
}

/// What happened.
pub enum PageEvent {
    Started,
    /// The page was fetched, or was not.
    Fetched(FetchResult),
    /// What was to be stored is stored.
    Done,
    /// These hosts are passed over; none where they cannot be listed.
    SkipHosts(Vec<String>),
    /// The bytes of the embedding; none where there is no embedding.
    Embedded(Option<Vec<u8>>),
}

/// What an event stands for.
pub enum PageHeard {
    Started,
    Fetched(Outcome),
    Done,
    SkipHosts(Seq<Seq<char>>),
    Embedded(Option<Seq<u8>>),
}

impl View for PageEvent {
    type V = PageHeard;

    open spec fn view(&self) -> PageHeard {
        match self {
            PageEvent::Started => PageHeard::Started,
            PageEvent::Fetched(r) => PageHeard::Fetched(r@),
            PageEvent::Done => PageHeard::Done,
            PageEvent::SkipHosts(list) => PageHeard::SkipHosts(texts(list@)),
            PageEvent::Embedded(Some(bytes)) => PageHeard::Embedded(Some(bytes@)),
            PageEvent::Embedded(None) => PageHeard::Embedded(None),
        }
    }
}

/// What to do next.
pub enum PageAction {
    Fetch { url: String },
    Store { url: String, title: String, body: String },
    ListSkipHosts,
    StoreRecipe { url: String, card: RecipeCard },
    SetRecipeStatus { url: String, status: String },
    Embed { text: String },
    StoreEmbedding { url: String, bytes: Vec<u8> },
    /// Nothing more: the page is in the index.
    Finish,
    /// Nothing more: there is no page to take in.
    GiveUp,
}

/// What an action stands for.
pub enum PageDeed {
    Fetch { url: Seq<char> },
    Store { url: Seq<char>, title: Seq<char>, body: Seq<char> },
    ListSkipHosts,
    StoreRecipe { url: Seq<char>, card: Recipe },
    SetRecipeStatus { url: Seq<char>, status: Seq<char> },
    Embed { text: Seq<char> },
    StoreEmbedding { url: Seq<char>, bytes: Seq<u8> },
    Finish,
    GiveUp,
}

impl View for PageAction {
    type V = PageDeed;

    open spec fn view(&self) -> PageDeed {
        match self {
            PageAction::Fetch { url } => PageDeed::Fetch { url: url@ },
            PageAction::Store { url, title, body } => PageDeed::Store {
                url: url@,
                title: title@,
                body: body@,
            },
            PageAction::ListSkipHosts => PageDeed::ListSkipHosts,
            PageAction::StoreRecipe { url, card } => PageDeed::StoreRecipe {
                url: url@,
                card: card@,
            },
            PageAction::SetRecipeStatus { url, status } => PageDeed::SetRecipeStatus {
                url: url@,
                status: status@,
            },
            PageAction::Embed { text } => PageDeed::Embed { text: text@ },
            PageAction::StoreEmbedding { url, bytes } => PageDeed::StoreEmbedding {
                url: url@,
                bytes: bytes@,
            },
            PageAction::Finish => PageDeed::Finish,
            PageAction::GiveUp => PageDeed::GiveUp,
        }
    }
}

/// The event can happen at this stage.
pub open spec fn page_expected(at: PageAt, event: PageHeard) -> bool {
    match at {
        PageAt::Begin => event is Started,
        PageAt::Fetching => event is Fetched,
        PageAt::Storing(_) => event is Done,
        PageAt::Asking(_) => event is SkipHosts,
        PageAt::Keeping(_) => event is Done,
        PageAt::Embedding => event is Embedded,
        PageAt::Saving => event is Done,
        PageAt::Finished => false,
    }
}

/// The text of a page for the model.
pub open spec fn model_text(page: Page) -> Seq<char> {
    page.title + " "@ + page.body
}

/// The page is embedded, where there is a model.
pub open spec fn embedding_next(plan: PagePlan, text: Seq<char>) -> (PageAt, PageDeed) {
    if plan.embeds {
        (PageAt::Embedding, PageDeed::Embed { text })
    } else {
        (PageAt::Finished, PageDeed::Finish)
    }
}

/// What is known of the recipe of a page is stored.
pub open spec fn recipe_next(plan: PagePlan, page: Page, skip_hosts: Seq<Seq<char>>) -> (
    PageAt,
    PageDeed,
) {
    let keeping = PageAt::Keeping(model_text(page));
    match recipe_choice(plan.url@, skip_hosts, page.recipe is Some, page.title, page.body) {
        RecipeStep::Skip => embedding_next(plan, model_text(page)),
        RecipeStep::Store => (
            keeping,
            PageDeed::StoreRecipe { url: plan.url@, card: page.recipe.unwrap() },
        ),
        RecipeStep::Pending => (
            keeping,
            PageDeed::SetRecipeStatus { url: plan.url@, status: "pending"@ },
        ),
        RecipeStep::Absent => (
            keeping,
            PageDeed::SetRecipeStatus { url: plan.url@, status: "none"@ },
        ),
    }
}

/// What comes after an event.
pub open spec fn page_next(plan: PagePlan, at: PageAt, event: PageHeard) -> (PageAt, PageDeed) {
    match (at, event) {
        (PageAt::Begin, PageHeard::Started) => (
            PageAt::Fetching,
            PageDeed::Fetch { url: plan.url@ },
        ),
        (PageAt::Fetching, PageHeard::Fetched(Outcome::Page(page))) => (
            PageAt::Storing(page),
            PageDeed::Store { url: plan.url@, title: page.title, body: page.body },
        ),
        (PageAt::Storing(page), PageHeard::Done) => if plan.recipes {
            (PageAt::Asking(page), PageDeed::ListSkipHosts)
        } else {
            embedding_next(plan, model_text(page))
        },
        (PageAt::Asking(page), PageHeard::SkipHosts(list)) => recipe_next(plan, page, list),
        (PageAt::Keeping(text), PageHeard::Done) => embedding_next(plan, text),
        (PageAt::Embedding, PageHeard::Embedded(Some(bytes))) => (
            PageAt::Saving,
            PageDeed::StoreEmbedding { url: plan.url@, bytes },
        ),
        (PageAt::Embedding, PageHeard::Embedded(None)) => (PageAt::Finished, PageDeed::Finish),
        (PageAt::Saving, PageHeard::Done) => (PageAt::Finished, PageDeed::Finish),
        _ => (PageAt::Finished, PageDeed::GiveUp),
    }
}

/// Embeds the page, where there is a model.
fn embed_on(plan: &PagePlan, text: String) -> (r: (PageStage, PageAction))
    ensures
        (r.0@, r.1@) == embedding_next(*plan, text@),
{
    if plan.embeds {
        (PageStage::Embedding, PageAction::Embed { text })
    } else {
        (PageStage::Finished, PageAction::Finish)
    }
}

/// Stores what is known of the recipe of a page.
fn keep_recipe(plan: &PagePlan, page: ExtractedPage, skip_hosts: &Vec<String>) -> (r: (
    PageStage,
    PageAction,
))
    ensures
        (r.0@, r.1@) == recipe_next(*plan, page@, texts(skip_hosts@)),
{
    let text: String = embedding_text(page.title.as_str(), page.body.as_str());
    let url: String = plan.url.clone();
    let has_recipe: bool = page.recipe.is_some();
    let step: RecipeStep = recipe_step(
        plan.url.as_str(),
        skip_hosts,
        has_recipe,
        page.title.as_str(),
        page.body.as_str(),
    );
    match step {
        RecipeStep::Skip => embed_on(plan, text),
        RecipeStep::Store => match page.recipe {
            Some(card) => (PageStage::Keeping(text), PageAction::StoreRecipe { url, card }),
            None => embed_on(plan, text),
        },
        RecipeStep::Pending => (
            PageStage::Keeping(text),
            PageAction::SetRecipeStatus { url, status: "pending".to_owned() },
        ),
        RecipeStep::Absent => (
            PageStage::Keeping(text),
            PageAction::SetRecipeStatus { url, status: "none".to_owned() },
        ),
    }
}

/// Goes on with a page after something happened.
pub fn page_step(plan: &PagePlan, stage: PageStage, event: PageEvent) -> (r: (
    PageStage,
    PageAction,
))
    requires
        page_expected(stage@, event@),
    ensures
        (r.0@, r.1@) == page_next(*plan, stage@, event@),
{
    match (stage, event) {
        (PageStage::Begin, PageEvent::Started) => (
            PageStage::Fetching,
            PageAction::Fetch { url: plan.url.clone() },
        ),
        (PageStage::Fetching, PageEvent::Fetched(FetchResult::Page(page))) => {
            let action = PageAction::Store {
                url: plan.url.clone(),
                title: page.title.clone(),
                body: page.body.clone(),
            };
            (PageStage::Storing(page), action)
        },
        (PageStage::Storing(page), PageEvent::Done) => {
            if plan.recipes {
                (PageStage::Asking(page), PageAction::ListSkipHosts)
            } else {
                embed_on(plan, embedding_text(page.title.as_str(), page.body.as_str()))
            }
        },
        (PageStage::Asking(page), PageEvent::SkipHosts(list)) => keep_recipe(plan, page, &list),
        (PageStage::Keeping(text), PageEvent::Done) => embed_on(plan, text),
        (PageStage::Embedding, PageEvent::Embedded(Some(bytes))) => (
            PageStage::Saving,
            PageAction::StoreEmbedding { url: plan.url.clone(), bytes },
        ),
        (PageStage::Embedding, PageEvent::Embedded(None)) => (
            PageStage::Finished,
            PageAction::Finish,
        ),
        (PageStage::Saving, PageEvent::Done) => (PageStage::Finished, PageAction::Finish),
        _ => (PageStage::Finished, PageAction::GiveUp),
    }
}

/// How far a stage is from the end.
pub open spec fn steps_left(at: PageAt) -> int {
    match at {
        PageAt::Begin => 7,
        PageAt::Fetching => 6,
        PageAt::Storing(_) => 5,
        PageAt::Asking(_) => 4,
        PageAt::Keeping(_) => 3,
        PageAt::Embedding => 2,
        PageAt::Saving => 1,
        PageAt::Finished => 0,
    }
}

/// Every event leads toward the end, and the end is reached with nothing more to do.
pub proof fn law_pages_come_to_an_end(plan: PagePlan, at: PageAt, event: PageHeard)
    requires
        page_expected(at, event),
    ensures
        ({
            let (next, deed) = page_next(plan, at, event);
            &&& 0 <= steps_left(next) < steps_left(at)
            &&& next is Finished <==> deed is Finish || deed is GiveUp
        }),
{
}

/// A page that cannot be fetched changes nothing: nothing is stored, and the matter ends.
pub proof fn law_unfetched_pages_change_nothing(plan: PagePlan, outcome: Outcome)
    requires
        !(outcome is Page),
    ensures
        page_next(plan, PageAt::Fetching, PageHeard::Fetched(outcome)) == (
            PageAt::Finished,
            PageDeed::GiveUp,
        ),
{
}

/// A page is fetched, stored with its title and its text, looked through for a recipe where that
/// is asked for, and embedded by its title and its text where there is a model; the embedding is
/// entered under its URL.
pub proof fn law_a_page_is_taken_in(
    plan: PagePlan,
    page: Page,
    skip_hosts: Seq<Seq<char>>,
    text: Seq<char>,
    bytes: Seq<u8>,
)
    ensures
        page_next(plan, PageAt::Begin, PageHeard::Started) == (
            PageAt::Fetching,
            PageDeed::Fetch { url: plan.url@ },
        ),
        page_next(plan, PageAt::Fetching, PageHeard::Fetched(Outcome::Page(page))) == (
            PageAt::Storing(page),
            PageDeed::Store { url: plan.url@, title: page.title, body: page.body },
        ),
        plan.recipes ==> page_next(plan, PageAt::Storing(page), PageHeard::Done) == (
            PageAt::Asking(page),
            PageDeed::ListSkipHosts,
        ),
        !plan.recipes && plan.embeds ==> page_next(plan, PageAt::Storing(page), PageHeard::Done)
            == (PageAt::Embedding, PageDeed::Embed { text: page.title + " "@ + page.body }),
        plan.embeds ==> page_next(plan, PageAt::Keeping(text), PageHeard::Done) == (
            PageAt::Embedding,
            PageDeed::Embed { text },
        ),
        ({
            let (next, deed) = page_next(
                plan,
                PageAt::Asking(page),
                PageHeard::SkipHosts(skip_hosts),
            );
            match recipe_choice(plan.url@, skip_hosts, page.recipe is Some, page.title, page.body) {
                RecipeStep::Skip => plan.embeds ==> deed == (PageDeed::Embed {
                    text: page.title + " "@ + page.body,
                }),
                RecipeStep::Store => next == PageAt::Keeping(page.title + " "@ + page.body) && deed
                    == (PageDeed::StoreRecipe { url: plan.url@, card: page.recipe->0 }),
                RecipeStep::Pending => next == PageAt::Keeping(page.title + " "@ + page.body) && deed
                    == (PageDeed::SetRecipeStatus { url: plan.url@, status: "pending"@ }),
                RecipeStep::Absent => next == PageAt::Keeping(page.title + " "@ + page.body) && deed
                    == (PageDeed::SetRecipeStatus { url: plan.url@, status: "none"@ }),
            }
        }),
        page_next(plan, PageAt::Embedding, PageHeard::Embedded(Some(bytes))) == (
            PageAt::Saving,
            PageDeed::StoreEmbedding { url: plan.url@, bytes },
        ),
        page_next(plan, PageAt::Embedding, PageHeard::Embedded(None)).1 is Finish,
        page_next(plan, PageAt::Saving, PageHeard::Done).1 is Finish,
        !plan.embeds && !plan.recipes ==> page_next(plan, PageAt::Storing(page), PageHeard::Done).1
            is Finish,
        !plan.embeds ==> page_next(plan, PageAt::Keeping(text), PageHeard::Done).1 is Finish,
{
}

} // verus!
