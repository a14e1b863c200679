//! Fetching pages: what is asked for, and what is made of the answers.

pub mod extract;
pub mod recipe;

use vstd::prelude::*;
use vstd::string::*;

use crate::config::{host_of, strip_port, without_port};
use crate::fetch::extract::{behind_login, extract, is_auth_wall, page_of, ExtractedPage, Page};
use crate::text::{
    before_first, contains, contains_text, first_of, has_prefix, lemma_first_of_unique,
    lowercase_of, strip_prefix,
};

verus! {

/// What came of fetching a page.
#[derive(Debug)]
pub enum FetchResult {
    Page(ExtractedPage),
    AuthWall,
    Skip,
    Error(String),
}

/// What a result stands for.
pub enum Outcome {
    Page(Page),
    AuthWall,
    Skip,
    Error(Seq<char>),
}

impl View for FetchResult {
    type V = Outcome;

    open spec fn view(&self) -> Outcome {
        match self {
            FetchResult::Page(page) => Outcome::Page(page@),
            FetchResult::AuthWall => Outcome::AuthWall,
            FetchResult::Skip => Outcome::Skip,
            FetchResult::Error(e) => Outcome::Error(e@),
        }
    }
}

/// How far the fetching of a page has come.
#[derive(Debug)]
pub enum FetchStage {
    /// The page has been asked for.
    Asking,
    /// The page has answered from this URL, and its text is being read.
    Reading(String),
    /// The archive has been asked for a snapshot.
    Querying,
    /// A snapshot has been asked for.
    Loading,
}

/// What happened to a request.
#[derive(Debug)]
pub enum FetchEvent {
    /// It failed.
    Failed(String),
    /// It was answered, from this URL and with this content type.
    Answered { final_url: String, content_type: Option<String> },
    /// The text of a page was read.
    Text(String),
    /// The rows of the archive were read.
    Rows(Vec<Vec<String>>),
}

/// What to do next.
#[derive(Debug)]
pub enum FetchAction {
    /// Read the text of the answer.
    Read,
    /// Ask the archive for its newest snapshot.
    Query,
    /// Fetch the page at this URL and read its text.
    Load(String),
    /// Nothing more: this is the result.
    Finish(FetchResult),
}

/// What an action stands for.
pub enum Move {
    Read,
    Query,
    Load(Seq<char>),
    Finish(Outcome),
}

impl View for FetchAction {
    type V = Move;

    open spec fn view(&self) -> Move {
        match self {
            FetchAction::Read => Move::Read,
            FetchAction::Query => Move::Query,
            FetchAction::Load(url) => Move::Load(url@),
            FetchAction::Finish(r) => Move::Finish(r@),
        }
    }
}

/// The event can happen at this stage.
pub open spec fn expected(stage: FetchStage, event: FetchEvent) -> bool {
    match event {
        FetchEvent::Failed(_) => true,
        FetchEvent::Answered { .. } => stage is Asking,
        FetchEvent::Text(_) => stage is Reading || stage is Loading,
        FetchEvent::Rows(_) => stage is Querying,
    }
}

/// A content type is that of a web page; a missing one is not.
pub open spec fn is_html(content_type: Option<String>) -> bool {
    match content_type {
        Some(t) => contains_text(lowercase_of(t@), "text/html"@),
        None => false,
    }
}

/// The rows of the archive hold a snapshot: the first row is a header, and the second begins
/// with the time of the snapshot.
pub open spec fn has_snapshot(rows: Seq<Vec<String>>) -> bool {
    rows.len() > 1 && rows[1]@.len() > 0
}

/// The URL of the snapshot of a page.
pub open spec fn snapshot_url(rows: Seq<Vec<String>>, url: Seq<char>) -> Seq<char> {
    "https://web.archive.org/web/"@ + rows[1]@[0]@ + "/"@ + url
}

/// What to do about an event. A page behind a login is looked for in the archive; it counts as
/// behind a login where the archive has no snapshot of it, or one without text.
pub open spec fn next_move(url: Seq<char>, stage: FetchStage, event: FetchEvent) -> Move {
    match (stage, event) {
        (FetchStage::Asking, FetchEvent::Failed(e)) => Move::Finish(Outcome::Error(e@)),
        (FetchStage::Asking, FetchEvent::Answered { content_type, .. }) => if is_html(
            content_type,
        ) {
            Move::Read
        } else {
            Move::Finish(Outcome::Skip)
        },
        (FetchStage::Reading(_), FetchEvent::Failed(e)) => Move::Finish(Outcome::Error(e@)),
        (FetchStage::Reading(final_url), FetchEvent::Text(html)) => if behind_login(
            final_url@,
            html@,
        ) {
            Move::Query
        } else {
            Move::Finish(Outcome::Page(page_of(html@)))
        },
        (FetchStage::Querying, FetchEvent::Rows(rows)) => if has_snapshot(rows@) {
            Move::Load(snapshot_url(rows@, url))
        } else {
            Move::Finish(Outcome::AuthWall)
        },
        (FetchStage::Loading, FetchEvent::Text(html)) => if page_of(html@).body.len() > 0 {
            Move::Finish(Outcome::Page(page_of(html@)))
        } else {
            Move::Finish(Outcome::AuthWall)
        },
        _ => Move::Finish(Outcome::AuthWall),
    }
}

/// Decides what to do about an event, and how far the fetching has then come.
pub fn fetch_step(url: &str, stage: FetchStage, event: FetchEvent) -> (r: (FetchStage, FetchAction))
    requires
        expected(stage, event),
    ensures
        r.1@ == next_move(url@, stage, event),
        r.1@ is Read ==> (r.0 matches FetchStage::Reading(f) && event matches FetchEvent::Answered {
            final_url,
            ..
        } && f == final_url),
        r.1@ is Query ==> r.0 is Querying,
        r.1@ is Load ==> r.0 is Loading,
{
    match (stage, event) {
        (FetchStage::Asking, FetchEvent::Failed(e)) => (
            FetchStage::Asking,
            FetchAction::Finish(FetchResult::Error(e)),
        ),
        (FetchStage::Asking, FetchEvent::Answered { final_url, content_type }) => {
            let html: bool = match &content_type {
                Some(t) => contains(t.as_str().to_lowercase().as_str(), "text/html"),
                None => false,
            };
            if html {
                (FetchStage::Reading(final_url), FetchAction::Read)
            } else {
                (FetchStage::Asking, FetchAction::Finish(FetchResult::Skip))
            }
        },
        (FetchStage::Reading(f), FetchEvent::Failed(e)) => (
            FetchStage::Reading(f),
            FetchAction::Finish(FetchResult::Error(e)),
        ),
        (FetchStage::Reading(f), FetchEvent::Text(html)) => {
            if is_auth_wall(f.as_str(), html.as_str()) {
                (FetchStage::Querying, FetchAction::Query)
            } else {
                let page: ExtractedPage = extract(html.as_str());
                (FetchStage::Reading(f), FetchAction::Finish(FetchResult::Page(page)))
            }
        },
        (FetchStage::Querying, FetchEvent::Rows(rows)) => {
            if rows.len() > 1 && rows[1].len() > 0 {
                let mut at: String = "https://web.archive.org/web/".to_owned();
                at.append(rows[1][0].as_str());
                at.append("/");
                at.append(url);
                (FetchStage::Loading, FetchAction::Load(at))
            } else {
                (FetchStage::Querying, FetchAction::Finish(FetchResult::AuthWall))
            }
        },
        (FetchStage::Loading, FetchEvent::Text(html)) => {
            let page: ExtractedPage = extract(html.as_str());
            assert(page.body@ == page_of(html@).body);
            if page.body.as_str().unicode_len() > 0 {
                (FetchStage::Loading, FetchAction::Finish(FetchResult::Page(page)))
            } else {
                (FetchStage::Loading, FetchAction::Finish(FetchResult::AuthWall))
            }
        },
        (stage, _) => (stage, FetchAction::Finish(FetchResult::AuthWall)),
    }
}

/// A page that is behind a login is never taken as it is: text from it is only taken out of the
/// archive.
pub proof fn law_login_pages_are_not_taken(url: Seq<char>, final_url: String, html: String)
    requires
        behind_login(final_url@, html@),
    ensures
        next_move(url, FetchStage::Reading(final_url), FetchEvent::Text(html)) == Move::Query,
{
}

/// Whatever happens while the archive is asked, the result is a page with text or a login wall.
pub proof fn law_the_archive_gives_text_or_a_wall(url: Seq<char>, stage: FetchStage, event: FetchEvent)
    requires
        stage is Querying || stage is Loading,
        expected(stage, event),
    ensures
        next_move(url, stage, event) matches Move::Finish(o) ==> (o is AuthWall || (o matches Outcome::Page(
            page,
        ) && page.body.len() > 0)),
{
}

/// The scheme of a URL and what stands behind it.
pub open spec fn scheme_parts(url: Seq<char>) -> Option<(Seq<char>, Seq<char>)> {
    if has_prefix(url, "https://"@) {
        Some(("https://"@, url.skip("https://"@.len() as int)))
    } else if has_prefix(url, "http://"@) {
        Some(("http://"@, url.skip("http://"@.len() as int)))
    } else {
        None
    }
}

/// The host of a page and the URL of its icon, which is asked of the same origin.
pub open spec fn icon_of(page_url: Seq<char>) -> Option<(Seq<char>, Seq<char>)> {
    match scheme_parts(page_url) {
        Some((scheme, rest)) => {
            let authority = rest.take(first_of(rest, "/?#"@));
            Some((without_port(authority), scheme + authority + "/favicon.ico"@))
        },
        None => None,
    }
}

/// The host of a page and the URL of its icon; none where the page has another scheme.
pub fn favicon_target(page_url: &str) -> (r: Option<(String, String)>)
    ensures
        match r {
            Some((host, at)) => icon_of(page_url@) == Some((host@, at@)),
            None => icon_of(page_url@) is None,
        },
{
    let (scheme, rest): (&str, &str) = match strip_prefix(page_url, "https://") {
        Some(rest) => ("https://", rest),
        None => match strip_prefix(page_url, "http://") {
            Some(rest) => ("http://", rest),
            None => {
                return None;
            },
        },
    };
    let authority: &str = before_first(rest, "/?#");
    let mut at: String = scheme.to_owned();
    at.append(authority);
    at.append("/favicon.ico");
    Some((strip_port(authority).to_owned(), at))
}

/// An icon that a server sent: its type and its bytes. None where the server refused or sent
/// nothing; a missing type is that of an icon file.
pub fn favicon_answer(success: bool, mime: Option<String>, bytes: Vec<u8>) -> (r: Option<
    (String, Vec<u8>),
>)
    ensures
        match r {
            Some((m, b)) => success && bytes@.len() > 0 && b == bytes && m@ == (match mime {
                Some(m) => m@,
                None => "image/x-icon"@,
            }),
            None => !success || bytes@.len() == 0,
        },
{
    if !success || bytes.len() == 0 {
        return None;
    }
    let m: String = match mime {
        Some(m) => m,
        None => "image/x-icon".to_owned(),
    };
    Some((m, bytes))
}

/// The icon of a page is kept under the host that the page has.
pub proof fn law_icons_are_kept_under_the_host(page_url: Seq<char>)
    ensures
        icon_of(page_url) matches Some((host, _)) ==> host == host_of(page_url),
{
}

/// A page is read where its type is HTML, in whatever case, and passed over otherwise; one that
/// cannot be had is an error. What is read is the page, unless it is behind a login. Then the
/// archive is asked for its latest copy; where it has one with text, that is the page.
pub proof fn law_what_becomes_of_a_fetched_page(
    url: Seq<char>,
    final_url: String,
    content_type: Option<String>,
    text: String,
    rows: Vec<Vec<String>>,
)
    ensures
        next_move(
            url,
            FetchStage::Asking,
            FetchEvent::Answered { content_type, final_url },
        ) == if content_type is Some && contains_text(lowercase_of(content_type->0@), "text/html"@) {
            Move::Read
        } else {
            Move::Finish(Outcome::Skip)
        },
        next_move(url, FetchStage::Asking, FetchEvent::Failed(text)) == Move::Finish(
            Outcome::Error(text@),
        ),
        next_move(url, FetchStage::Reading(final_url), FetchEvent::Failed(text)) == Move::Finish(
            Outcome::Error(text@),
        ),
        !behind_login(final_url@, text@) ==> next_move(
            url,
            FetchStage::Reading(final_url),
            FetchEvent::Text(text),
        ) == Move::Finish(Outcome::Page(page_of(text@))),
        behind_login(final_url@, text@) ==> next_move(
            url,
            FetchStage::Reading(final_url),
            FetchEvent::Text(text),
        ) is Query,
        next_move(url, FetchStage::Querying, FetchEvent::Rows(rows)) == if rows@.len() > 1
            && rows@[1]@.len() > 0 {
            Move::Load("https://web.archive.org/web/"@ + rows@[1]@[0]@ + "/"@ + url)
        } else {
            Move::Finish(Outcome::AuthWall)
        },
        next_move(url, FetchStage::Loading, FetchEvent::Text(text)) == if page_of(text@).body.len()
            == 0 {
            Move::Finish(Outcome::AuthWall)
        } else {
            Move::Finish(Outcome::Page(page_of(text@)))
        },
        next_move(url, FetchStage::Querying, FetchEvent::Failed(text)) == Move::Finish(
            Outcome::AuthWall,
        ),
        next_move(url, FetchStage::Loading, FetchEvent::Failed(text)) == Move::Finish(
            Outcome::AuthWall,
        ),
{
}

/// The icon of a page is asked for at its site: under its own scheme, host and port, whatever
/// stands behind them. It is kept under the host.
pub proof fn law_icons_are_asked_for_at_the_site(host: Seq<char>, port: Seq<char>, rest: Seq<char>)
    requires
        !host.contains('/') && !host.contains('?') && !host.contains('#'),
        !port.contains('/') && !port.contains('?') && !port.contains('#'),
        rest.len() > 0 ==> rest[0] == '/' || rest[0] == '?' || rest[0] == '#',
    ensures
        ({
            let secure = icon_of("https://"@ + (host + port) + rest);
            &&& secure is Some
            &&& secure->Some_0.1 == "https://"@ + (host + port) + "/favicon.ico"@
            &&& secure->Some_0.0 == without_port(host + port)
        }),
        ({
            let plain = icon_of("http://"@ + (host + port) + rest);
            &&& plain is Some
            &&& plain->Some_0.1 == "http://"@ + (host + port) + "/favicon.ico"@
            &&& plain->Some_0.0 == without_port(host + port)
        }),
{
    let site = host + port;
    reveal_strlit("https://");
    reveal_strlit("http://");
    reveal_strlit("/?#");
    let set = "/?#"@;
    let s = site + rest;
    assert(set =~= seq!['/', '?', '#']);
    assert forall|i: int| 0 <= i < site.len() implies !set.contains(#[trigger] s[i]) by {
        if i < host.len() {
            assert(s[i] == host[i]);
            assert(host.contains(host[i]));
        } else {
            assert(s[i] == port[i - host.len()]);
            assert(port.contains(port[i - host.len()]));
        }
        if set.contains(s[i]) {
            let k = choose|k: int| 0 <= k < set.len() && set[k] == s[i];
            assert(k == 0 || k == 1 || k == 2);
        }
    }
    if rest.len() > 0 {
        assert(s[site.len() as int] == rest[0]);
        assert(set[0] == '/' && set[1] == '?' && set[2] == '#');
        assert(set.contains(rest[0]));
    }
    lemma_first_of_unique(s, set, site.len() as int);
    assert(s.take(site.len() as int) =~= site);
    let a = "https://"@ + site + rest;
    let b = "http://"@ + site + rest;
    assert(a.subrange(0, 8) =~= "https://"@);
    assert(a.skip(8) =~= s);
    assert(b.subrange(0, 7) =~= "http://"@);
    assert(b.skip(7) =~= s);
    if has_prefix(b, "https://"@) {
        assert(b.subrange(0, 8)[4] == 's');
        assert(b[4] == ':');
    }
}

} // verus!
