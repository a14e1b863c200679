//! What the server's requests ask for, and what is answered.

pub mod answers;
pub mod chat;
pub mod digest;
pub mod flow;
pub mod handlers;
pub mod indexing;
pub mod setup;

use vstd::prelude::*;
use vstd::string::*;

use crate::json::{Json, Tree};
use crate::text::{
    parse_u32, parsed_u32, split, split_at_char, texts, trim_leading, without_leading,
};

verus! {

/// How many results are returned where nothing else is asked for.
pub const DEFAULT_RESULT_LIMIT: u32 = 20;

/// How many sources an answer rests on where nothing else is asked for.
pub const DEFAULT_ASK_SOURCES: u32 = 5;

/// How many pages are listed where nothing else is asked for.
pub const DEFAULT_PAGE_LIMIT: u32 = 50;

/// How many days clusters go back where nothing else is asked for.
pub const DEFAULT_CLUSTER_DAYS: u32 = 14;

/// The least similarity of pages that are found by meaning, 0.3.
pub const VECTOR_SIMILARITY_BITS: u32 = 0x3e99_999a;

/// How many times as many pages of the history are read as are shown.
pub const FETCH_MULTIPLIER: u32 = 4;

/// How many entries are asked for.
#[derive(Debug)]
pub struct PaginationParams {
    pub limit: u32,
}

/// A search.
#[derive(Debug)]
pub struct SearchParams {
    pub q: String,
    pub limit: u32,
}

/// A page that an answer is to rest on.
#[derive(Debug)]
pub struct AskSource {
    pub url: String,
    pub title: String,
}

/// A question.
#[derive(Debug)]
pub struct AskParams {
    pub q: String,
    pub k: u32,
}

/// A question, with the pages that the answer is to rest on, if any are given.
#[derive(Debug)]
pub struct AskBody {
    pub q: String,
    pub k: u32,
    pub sources: Vec<AskSource>,
}

/// A host whose icon is asked for.
#[derive(Debug)]
pub struct FaviconParams {
    pub host: String,
}

/// A page of the week.
#[derive(Debug)]
pub struct WeeklyPage {
    pub url: String,
    pub title: String,
    pub snippet: String,
    pub last_visit_at: Option<String>,
}

/// The pages of the week of one host.
#[derive(Debug)]
pub struct WeeklyGroup {
    pub host: String,
    pub pages: Vec<WeeklyPage>,
    pub is_new: bool,
    pub prior_count: usize,
}

/// A message of a conversation.
#[derive(Debug)]
pub struct ChatTurn {
    pub role: String,
    pub content: String,
}

/// A conversation.
#[derive(Debug)]
pub struct ChatBody {
    pub messages: Vec<ChatTurn>,
    pub k: u32,
}

/// A tool that was called, and with what.
#[derive(Debug)]
pub struct ChatToolCall {
    pub tool: String,
    pub arg: String,
}

/// A reply in a conversation: as it is shown, as it was written, what it rests on, and the tools
/// that were called for it.
#[derive(Debug)]
pub struct ChatReply {
    pub answer: String,
    pub answer_md: String,
    pub sources: Vec<String>,
    pub tool_calls: Vec<ChatToolCall>,
}

/// A page to star.
#[derive(Debug)]
pub struct BookmarkParams {
    pub url: String,
    pub title: String,
}

/// A page.
#[derive(Debug)]
pub struct UrlParam {
    pub url: String,
}

/// A host.
#[derive(Debug)]
pub struct HostParam {
    pub host: String,
}

/// A page whose star is set or taken.
#[derive(Debug)]
pub struct StarParams {
    pub url: String,
    pub starred: bool,
}

/// Which pages are listed.
#[derive(Debug)]
pub struct ListPagesParams {
    pub limit: u32,
    pub offset: u32,
    pub q: Option<String>,
}

/// How many pages were deleted.
#[derive(Debug)]
pub struct DeletedCount {
    pub deleted: u64,
}

/// How many days clusters go back.
#[derive(Debug)]
pub struct ClustersParams {
    pub days: u32,
}

/// A domain whose clusters are ignored, or no more.
#[derive(Debug)]
pub struct IgnoreDomainParam {
    pub domain: String,
}

/// How synchronisation stands.
#[derive(Debug)]
pub struct SyncStatus {
    pub paused: bool,
    pub interval_mins: u64,
    pub last_sync_at: Option<i64>,
}

/// Whether synchronisation pauses.
#[derive(Debug)]
pub struct PauseParams {
    pub paused: bool,
}

/// A browser that may be installed, and where its history would be.
#[derive(Debug)]
pub struct DetectedBrowser {
    pub name: String,
    pub kind: String,
    pub path: String,
    pub exists: bool,
}

/// A server to try.
#[derive(Debug)]
pub struct TestLlmParams {
    pub base_url: String,
}

/// Whether a server was reached.
#[derive(Debug)]
pub struct TestLlmResult {
    pub ok: bool,
    pub message: String,
}

/// A new configuration.
#[derive(Debug)]
pub struct SetupPayload {
    pub browser_path: String,
    pub browser_kind: String,
    pub data_dir: String,
    pub llm_base_url: String,
    pub llm_model: String,
    pub llm_provider: String,
    pub llm_api_key: Option<String>,
    pub sync_interval_mins: Option<u64>,
}

/// A page to star.
#[derive(Debug)]
pub struct ImportItem {
    pub url: String,
    pub title: String,
}

/// Which entries of the log are asked for.
#[derive(Debug)]
pub struct LogParams {
    pub kind: Option<String>,
}

/// How the update stands.
#[derive(Debug)]
pub struct UpdateStatusResponse {
    pub status: String,
}

/// How many hours a digest goes back.
#[derive(Debug)]
pub struct DigestBody {
    pub hours: u64,
}

/// The name of a new thread.
#[derive(Debug)]
pub struct CreateThreadBody {
    pub name: String,
}

/// The new name of a thread.
#[derive(Debug)]
pub struct RenameThreadBody {
    pub name: String,
}

/// A page for a thread.
#[derive(Debug)]
pub struct AddThreadPageBody {
    pub url: String,
}

/// A page of a thread.
#[derive(Debug)]
pub struct RemoveThreadPageBody {
    pub url: String,
}

/// Which recipes are listed.
#[derive(Debug)]
pub struct RecipesQuery {
    pub limit: Option<u32>,
    pub offset: Option<u32>,
}

/// A page whose recipe is asked for.
#[derive(Debug)]
pub struct ForUrlQuery {
    pub url: String,
}

/// A page whose recipe is to be found.
#[derive(Debug)]
pub struct ExtractRecipeBody {
    pub url: String,
}

/// A host whose pages are to be fetched again.
#[derive(Debug)]
pub struct RequeueHostParams {
    pub host: String,
}

/// A newer version, and where to get it.
#[derive(Debug, Clone)]
pub struct UpdateInfo {
    pub version: String,
    pub url: String,
}

/// How many results are returned where nothing else is asked for.
pub fn default_limit() -> (r: u32)
    ensures
        r == 20,
{
    DEFAULT_RESULT_LIMIT
}

/// How many sources an answer rests on where nothing else is asked for.
pub fn default_ask_k() -> (r: u32)
    ensures
        r == 5,
{
    DEFAULT_ASK_SOURCES
}

/// How many pages are listed where nothing else is asked for.
pub fn default_page_limit() -> (r: u32)
    ensures
        r == 50,
{
    DEFAULT_PAGE_LIMIT
}

/// How many days clusters go back where nothing else is asked for.
pub fn default_cluster_days() -> (r: u32)
    ensures
        r == 14,
{
    DEFAULT_CLUSTER_DAYS
}

/// How many hours a digest goes back where nothing else is asked for.
pub fn default_digest_hours() -> (r: u64)
    ensures
        r == 24,
{
    24
}

/// The three numbers of a version, behind any leading `v`.
pub open spec fn version_of(v: Seq<char>) -> Option<(u32, u32, u32)> {
    let parts = split(without_leading(v, 'v'), '.');
    if parts.len() != 3 {
        None
    } else {
        match (parsed_u32(parts[0], 10), parsed_u32(parts[1], 10), parsed_u32(parts[2], 10)) {
            (Some(a), Some(b), Some(c)) => Some((a, b, c)),
            _ => None,
        }
    }
}

/// Version `a` is newer than version `b`.
pub open spec fn newer(a: (u32, u32, u32), b: (u32, u32, u32)) -> bool {
    a.0 > b.0 || (a.0 == b.0 && (a.1 > b.1 || (a.1 == b.1 && a.2 > b.2)))
}

/// A version is newer than another: both are versions, and the numbers of the first are larger.
pub open spec fn is_newer(latest: Seq<char>, current: Seq<char>) -> bool {
    match (version_of(latest), version_of(current)) {
        (Some(l), Some(c)) => newer(l, c),
        _ => false,
    }
}

/// The three numbers of a version.
pub fn parse_version(v: &str) -> (r: Option<(u32, u32, u32)>)
    ensures
        r == version_of(v@),
{
    let parts: Vec<String> = split_at_char(trim_leading(v, 'v'), '.');
    assert(texts(parts@).len() == parts@.len());
    if parts.len() != 3 {
        return None;
    }
    assert(texts(parts@)[0] == parts@[0]@);
    assert(texts(parts@)[1] == parts@[1]@);
    assert(texts(parts@)[2] == parts@[2]@);
    match (
        parse_u32(parts[0].as_str(), 10),
        parse_u32(parts[1].as_str(), 10),
        parse_u32(parts[2].as_str(), 10),
    ) {
        (Some(a), Some(b), Some(c)) => Some((a, b, c)),
        _ => None,
    }
}

/// Whether a version is newer than another.
pub fn is_newer_version(latest: &str, current: &str) -> (r: bool)
    ensures
        r == is_newer(latest@, current@),
{
    match (parse_version(latest), parse_version(current)) {
        (Some(l), Some(c)) => l.0 > c.0 || (l.0 == c.0 && (l.1 > c.1 || (l.1 == c.1 && l.2 > c.2))),
        _ => false,
    }
}

/// No version is newer than itself, and of two versions at most one is newer than the other.
pub proof fn law_newer_is_an_order(a: Seq<char>, b: Seq<char>, c: Seq<char>)
    ensures
        !is_newer(a, a),
        is_newer(a, b) ==> !is_newer(b, a),
        is_newer(a, b) && is_newer(b, c) ==> is_newer(a, c),
{
}

/// The update that a description of the latest release stands for: none where it lacks its tag
/// or its page, or is no newer.
pub open spec fn update_in(release: Tree, current: Seq<char>) -> Option<(Seq<char>, Seq<char>)> {
    match (release.text_at("tag_name"@), release.text_at("html_url"@)) {
        (Some(tag), Some(url)) => if is_newer(tag, current) {
            Some((without_leading(tag, 'v'), url))
        } else {
            None
        },
        _ => None,
    }
}

/// The update that a description of the latest release stands for.
pub fn latest_release(release: &Json, current: &str) -> (r: Option<UpdateInfo>)
    ensures
        match r {
            Some(info) => update_in(release.tree(), current@) == Some((info.version@, info.url@)),
            None => update_in(release.tree(), current@) is None,
        },
{
    match (release.text_at("tag_name"), release.text_at("html_url")) {
        (Some(tag), Some(url)) => {
            if is_newer_version(tag, current) {
                Some(
                    UpdateInfo {
                        version: trim_leading(tag, 'v').to_owned(),
                        url: url.to_owned(),
                    },
                )
            } else {
                None
            }
        },
        _ => None,
    }
}

/// Of two versions the first number that differs decides.
pub proof fn law_the_first_number_that_differs_decides(a: (u32, u32, u32), b: (u32, u32, u32))
    ensures
        a.0 != b.0 ==> newer(a, b) == (a.0 > b.0),
        a.0 == b.0 && a.1 != b.1 ==> newer(a, b) == (a.1 > b.1),
        a.0 == b.0 && a.1 == b.1 ==> newer(a, b) == (a.2 > b.2),
{
}

/// An update is told where the release has a tag and a page and its version is newer than the one
/// that runs, and only there.
pub proof fn law_updates_are_newer(release: Tree, current: Seq<char>)
    ensures
        update_in(release, current) is Some <==> release.text_at("tag_name"@) is Some
            && release.text_at("html_url"@) is Some && version_of(release.text_at("tag_name"@)->0)
            is Some && version_of(current) is Some && newer(
            version_of(release.text_at("tag_name"@)->0)->0,
            version_of(current)->0,
        ),
        update_in(release, current) matches Some((tag, url)) ==> url == release.text_at(
            "html_url"@,
        )->0 && tag == without_leading(release.text_at("tag_name"@)->0, 'v'),
{
}

/// Unless told otherwise, twenty results are given, five pages are looked for, fifty pages are
/// listed, two weeks are looked through, pages are close from 0.3 on, and four times as many pages
/// of the history are read as are shown.
pub proof fn law_what_is_given_unless_told_otherwise()
    ensures
        DEFAULT_RESULT_LIMIT == 20,
        DEFAULT_ASK_SOURCES == 5,
        DEFAULT_PAGE_LIMIT == 50,
        DEFAULT_CLUSTER_DAYS == 14,
        VECTOR_SIMILARITY_BITS == 0x3e99_999a,
        FETCH_MULTIPLIER == 4,
{
}

} // verus!
