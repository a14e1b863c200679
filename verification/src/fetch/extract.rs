//! The title and the text of a page.

use vstd::prelude::*;
use vstd::string::*;
use vstd::utf8::encode_utf8;

use crate::fetch::recipe::{Recipe, RecipeCard};
use crate::lists::{lemma_picked_none, lemma_picked_one_more, picked, push_text};
use crate::text::{
    ascii_uppered, byte_len, chars_of, closed_words, contains, contains_text, find_text_from,
    is_ascii_text, is_char_code, join, joined, law_case_hides_no_words,
    law_surroundings_hide_no_words, lemma_char_of_code, lemma_words_have_characters, lowercase_of,
    occurs_at, opt, parse_u32, parsed_u32, split_words, texts, trim, trimmed, with_word, words,
    WordKind,
};

verus! {

/// What is taken from a page.
#[derive(Debug)]
pub struct ExtractedPage {
    pub title: String,
    pub body: String,
    pub recipe: Option<RecipeCard>,
}

/// What an extracted page stands for.
#[verifier::ext_equal]
pub struct Page {
    pub title: Seq<char>,
    pub body: Seq<char>,
    pub recipe: Option<Recipe>,
}

impl View for ExtractedPage {
    type V = Page;

    open spec fn view(&self) -> Page {
        Page {
            title: self.title@,
            body: self.body@,
            recipe: match self.recipe {
                Some(card) => Some(card@),
                None => None,
            },
        }
    }
}

/// The text nodes of each element of a page that a selector matches, in the order of the page,
/// as `scraper` finds them.
pub uninterp spec fn selected_texts(html: Seq<char>, selector: Seq<char>) -> Seq<Seq<Seq<char>>>;

/// The value of an attribute of each element of a page that a selector matches, in the order of
/// the page, as `scraper` finds them.
pub uninterp spec fn selected_attrs(
    html: Seq<char>,
    selector: Seq<char>,
    name: Seq<char>,
) -> Seq<Option<Seq<char>>>;

/// The characters of lists of strings.
pub open spec fn lists_of(v: Seq<Vec<String>>) -> Seq<Seq<Seq<char>>> {
    Seq::new(v.len(), |i: int| texts(v[i]@))
}

/// The characters of strings that may be missing.
pub open spec fn opts(v: Seq<Option<String>>) -> Seq<Option<Seq<char>>> {
    Seq::new(v.len(), |i: int| opt(v[i]))
}

/// The text nodes of the elements of a page that a selector matches.
///
/// Calls `scraper::Selector::parse`, `scraper::Html::parse_document`, `scraper::Html::select`
/// and `scraper::ElementRef::text`. Claimed: the result depends on the page and the selector
/// alone.
#[verifier::external_body]
pub(crate) fn select_texts(html: &str, selector: &str) -> (r: Vec<Vec<String>>)
    ensures
        lists_of(r@) == selected_texts(html@, selector@),
{
    match scraper::Selector::parse(selector) {
        Ok(sel) => scraper::Html::parse_document(html).select(&sel)
            .map(|e| e.text().map(String::from).collect())
            .collect(),
        Err(_) => Vec::new(),
    }
}

/// The values of an attribute of the elements of a page that a selector matches.
///
/// Calls `scraper::Selector::parse`, `scraper::Html::parse_document`, `scraper::Html::select`
/// and the `attr` of each element. Claimed: the result depends on the page, the selector and
/// the name alone.
#[verifier::external_body]
fn select_attrs(html: &str, selector: &str, name: &str) -> (r: Vec<Option<String>>)
    ensures
        opts(r@) == selected_attrs(html@, selector@, name@),
{
    match scraper::Selector::parse(selector) {
        Ok(sel) => scraper::Html::parse_document(html).select(&sel)
            .map(|e| e.value().attr(name).map(String::from))
            .collect(),
        Err(_) => Vec::new(),
    }
}

/// A text with one space in place of each run of white space, and none at its ends.
pub open spec fn normalized(s: Seq<char>) -> Seq<char> {
    joined(words(s, WordKind::Printed), " "@)
}

/// A text with one space in place of each run of white space, and none at its ends.
pub fn normalize(s: &str) -> (r: String)
    ensures
        r@ == normalized(s@),
{
    let w: Vec<String> = split_words(s, WordKind::Printed);
    join(&w, " ")
}

/// The text nodes of an element as one text.
pub open spec fn node_texts(nodes: Seq<Seq<char>>) -> Seq<Seq<char>>
    decreases nodes.len(),
{
    if nodes.len() == 0 {
        Seq::empty()
    } else {
        with_word(node_texts(nodes.drop_last()), normalized(nodes.last()))
    }
}

/// The text of an element: its text nodes with white space evened out, without empty ones.
pub fn text_of_nodes(nodes: &Vec<String>) -> (r: String)
    ensures
        r@ == joined(node_texts(texts(nodes@)), " "@),
{
    let ghost all = texts(nodes@);
    let mut out: Vec<String> = Vec::new();
    let mut i: usize = 0;
    assert(texts(out@) =~= node_texts(all.take(0)));
    while i < nodes.len()
        invariant
            i <= nodes.len(),
            all == texts(nodes@),
            texts(out@) == node_texts(all.take(i as int)),
        decreases nodes.len() - i,
    {
        let ghost t = all.take(i as int + 1);
        assert(t.drop_last() =~= all.take(i as int));
        assert(t.last() == nodes@[i as int]@);
        let s: String = normalize(nodes[i].as_str());
        if s.as_str().unicode_len() > 0 {
            push_text(&mut out, s.as_str());
        }
        i = i + 1;
    }
    assert(all.take(all.len() as int) =~= all);
    join(&out, " ")
}

/// The title of a page whose title elements have these text nodes: that of the first.
pub open spec fn title_of(found: Seq<Seq<Seq<char>>>) -> Seq<char> {
    if found.len() == 0 {
        normalized(Seq::empty())
    } else {
        normalized(joined(found[0], ""@))
    }
}

/// The title of a page whose title elements have these text nodes.
pub fn choose_title(found: &Vec<Vec<String>>) -> (r: String)
    ensures
        r@ == title_of(lists_of(found@)),
{
    if found.len() == 0 {
        let none: String = String::new();
        assert(none@ =~= Seq::empty());
        return normalize(none.as_str());
    }
    assert(lists_of(found@)[0] == texts(found@[0]@));
    let whole: String = join(&found[0], "");
    normalize(whole.as_str())
}

/// The text of a page: that of the first element of the first selector for which it has more
/// than fifty bytes. Empty where there is none.
pub open spec fn body_of(found: Seq<Seq<Seq<Seq<char>>>>) -> Seq<char>
    decreases found.len(),
{
    if found.len() == 0 {
        Seq::empty()
    } else {
        let text = joined(node_texts(found[0][0]), " "@);
        if found[0].len() > 0 && encode_utf8(text).len() > 50 {
            text
        } else {
            body_of(found.drop_first())
        }
    }
}

/// What each selector of a list finds.
pub open spec fn found_lists(v: Seq<Vec<Vec<String>>>) -> Seq<Seq<Seq<Seq<char>>>> {
    Seq::new(v.len(), |i: int| lists_of(v[i]@))
}

/// The text of a page, from what each selector finds.
pub fn choose_body(found: &Vec<Vec<Vec<String>>>) -> (r: String)
    ensures
        r@ == body_of(found_lists(found@)),
{
    let ghost all = found_lists(found@);
    let mut i: usize = 0;
    assert(all.skip(0) =~= all);
    while i < found.len()
        invariant
            i <= found.len(),
            all == found_lists(found@),
            body_of(all) == body_of(all.skip(i as int)),
        decreases found.len() - i,
    {
        let ghost rest = all.skip(i as int);
        assert(rest[0] == lists_of(found@[i as int]@));
        assert(rest.drop_first() =~= all.skip(i as int + 1));
        if found[i].len() > 0 {
            assert(rest[0][0] == texts(found@[i as int]@[0]@));
            let s: String = text_of_nodes(&found[i][0]);
            if byte_len(s.as_str()) > 50 {
                return s;
            }
        }
        i = i + 1;
    }
    let r: String = String::new();
    assert(r@ =~= Seq::empty());
    r
}

/// The selectors for the text of a page, the best first.
pub open spec fn body_selectors() -> Seq<Seq<char>> {
    seq!["main"@, "article"@, "[role='main']"@, "#content"@, "#main"@, "body"@]
}

/// What the selectors for the text find in a page.
pub open spec fn body_found(html: Seq<char>) -> Seq<Seq<Seq<Seq<char>>>> {
    Seq::new(body_selectors().len(), |i: int| selected_texts(html, body_selectors()[i]))
}

/// The title of a page.
pub fn extract_title(html: &str) -> (r: String)
    ensures
        r@ == title_of(selected_texts(html@, "title"@)),
{
    let found: Vec<Vec<String>> = select_texts(html, "title");
    choose_title(&found)
}

/// The visible text of a page.
pub fn extract_body(html: &str) -> (r: String)
    ensures
        r@ == body_of(body_found(html@)),
{
    let found: Vec<Vec<Vec<String>>> = vec![
        select_texts(html, "main"),
        select_texts(html, "article"),
        select_texts(html, "[role='main']"),
        select_texts(html, "#content"),
        select_texts(html, "#main"),
        select_texts(html, "body"),
    ];
    assert(found_lists(found@) =~= body_found(html@));
    choose_body(&found)
}

/// The description of a page: the first of what each selector finds first that is not blank.
pub open spec fn description_of(found: Seq<Seq<Option<Seq<char>>>>) -> Option<Seq<char>>
    decreases found.len(),
{
    if found.len() == 0 {
        None
    } else if found[0].len() > 0 && found[0][0] is Some && trimmed(found[0][0].unwrap()).len() > 0 {
        Some(trimmed(found[0][0].unwrap()))
    } else {
        description_of(found.drop_first())
    }
}

/// What each selector of a list finds.
pub open spec fn found_opts(v: Seq<Vec<Option<String>>>) -> Seq<Seq<Option<Seq<char>>>> {
    Seq::new(v.len(), |i: int| opts(v[i]@))
}

/// The description of a page, from what each selector finds.
pub fn choose_description(found: &Vec<Vec<Option<String>>>) -> (r: Option<String>)
    ensures
        opt(r) == description_of(found_opts(found@)),
{
    let ghost all = found_opts(found@);
    let mut i: usize = 0;
    assert(all.skip(0) =~= all);
    while i < found.len()
        invariant
            i <= found.len(),
            all == found_opts(found@),
            description_of(all) == description_of(all.skip(i as int)),
        decreases found.len() - i,
    {
        let ghost rest = all.skip(i as int);
        assert(rest[0] == opts(found@[i as int]@));
        assert(rest.drop_first() =~= all.skip(i as int + 1));
        if found[i].len() > 0 {
            assert(rest[0][0] == opt(found@[i as int]@[0]));
            if let Some(content) = &found[i][0] {
                let s: &str = trim(content.as_str());
                if s.unicode_len() > 0 {
                    return Some(s.to_owned());
                }
            }
        }
        i = i + 1;
    }
    None
}

/// What the selectors for the description find in a page.
pub open spec fn meta_found(html: Seq<char>) -> Seq<Seq<Option<Seq<char>>>> {
    seq![
        selected_attrs(html, r#"meta[property="og:description"]"#@, "content"@),
        selected_attrs(html, r#"meta[name="description"]"#@, "content"@),
    ]
}

/// The description of a page.
pub fn meta_description(html: &str) -> (r: Option<String>)
    ensures
        opt(r) == description_of(meta_found(html@)),
{
    let found: Vec<Vec<Option<String>>> = vec![
        select_attrs(html, r#"meta[property="og:description"]"#, "content"),
        select_attrs(html, r#"meta[name="description"]"#, "content"),
    ];
    assert(found_opts(found@) =~= meta_found(html@));
    choose_description(&found)
}

/// Each of several lists of texts as one text.
pub open spec fn joined_each(found: Seq<Seq<Seq<char>>>) -> Seq<Seq<char>> {
    Seq::new(found.len(), |i: int| joined(found[i], ""@))
}

/// The JSON scripts of a page.
pub open spec fn scripts_of(html: Seq<char>) -> Seq<Seq<char>> {
    joined_each(selected_texts(html, r#"script[type="application/ld+json"]"#@))
}

/// Each of several lists of texts as one text.
pub(crate) fn join_each(found: &Vec<Vec<String>>) -> (r: Vec<String>)
    ensures
        texts(r@) == joined_each(lists_of(found@)),
{
    let mut out: Vec<String> = Vec::new();
    let mut i: usize = 0;
    while i < found.len()
        invariant
            i <= found.len(),
            out@.len() == i,
            forall|k: int| 0 <= k < i ==> (#[trigger] out@[k])@ == joined_each(lists_of(found@))[k],
        decreases found.len() - i,
    {
        let s: String = join(&found[i], "");
        out.push(s);
        i = i + 1;
    }
    assert(texts(out@) =~= joined_each(lists_of(found@)));
    out
}

/// One of a list of texts stands in `s`.
pub open spec fn holds_any(s: Seq<char>, list: Seq<Seq<char>>) -> bool {
    exists|i: int| 0 <= i < list.len() && contains_text(s, #[trigger] list[i])
}

/// Whether one of a list of texts stands in `s`.
fn has_any(s: &str, list: &Vec<String>) -> (r: bool)
    ensures
        r == holds_any(s@, texts(list@)),
{
    let mut i: usize = 0;
    while i < list.len()
        invariant
            i <= list.len(),
            forall|k: int| 0 <= k < i ==> !contains_text(s@, #[trigger] texts(list@)[k]),
        decreases list.len() - i,
    {
        if contains(s, list[i].as_str()) {
            assert(contains_text(s@, texts(list@)[i as int]));
            return true;
        }
        i = i + 1;
    }
    false
}

/// Parts of a URL that lead to a login.
pub open spec fn login_paths() -> Seq<Seq<char>> {
    seq![
        "/login"@,
        "/signin"@,
        "/sign-in"@,
        "/auth/"@,
        "/authenticate"@,
    ]
}

/// Parts of a URL that lead to a login.
fn login_list() -> (r: Vec<String>)
    ensures
        texts(r@) == login_paths(),
{
    let mut r: Vec<String> = Vec::new();
    assert(texts(r@) =~= seq![]);
    push_text(&mut r, "/login");
    push_text(&mut r, "/signin");
    push_text(&mut r, "/sign-in");
    push_text(&mut r, "/auth/");
    push_text(&mut r, "/authenticate");
    assert(texts(r@) =~= login_paths());
    r
}

/// The marks of a password field in a page.
pub open spec fn password_fields() -> Seq<Seq<char>> {
    seq![
        "type=\"password\""@,
        "type='password'"@,
    ]
}

/// The marks of a password field in a page.
fn password_list() -> (r: Vec<String>)
    ensures
        texts(r@) == password_fields(),
{
    let mut r: Vec<String> = Vec::new();
    assert(texts(r@) =~= seq![]);
    push_text(&mut r, "type=\"password\"");
    push_text(&mut r, "type='password'");
    assert(texts(r@) =~= password_fields());
    r
}

/// The marks of a page that is gated behind a subscription: in its structured data, in its
/// elements, and in its words.
pub open spec fn paywall_marks() -> Seq<Seq<char>> {
    seq![
        "\"isaccessibleforfree\":\"false\""@,
        "\"isaccessibleforfree\": \"false\""@,
        "class=\"paywall\""@,
        "id=\"paywall\""@,
        "class='paywall'"@,
        "id='paywall'"@,
        "data-paywall"@,
        "class=\"tp-"@,
        "id=\"tp-"@,
        "subscribe to read"@,
        "subscribe to continue"@,
        "subscribe to keep reading"@,
        "subscription required"@,
        "subscriber-only"@,
        "subscribers only"@,
        "already a subscriber?"@,
        "become a subscriber"@,
        "premium article"@,
        "premium content"@,
        "members only"@,
        "sign up to read"@,
        "register to read"@,
        "reading limit reached"@,
        "free articles remaining"@,
        "free article"@,
    ]
}

/// The marks of a page that is gated behind a subscription: in its structured data, in its
/// elements, and in its words.
fn paywall_list() -> (r: Vec<String>)
    ensures
        texts(r@) == paywall_marks(),
{
    let mut r: Vec<String> = Vec::new();
    assert(texts(r@) =~= seq![]);
    push_text(&mut r, "\"isaccessibleforfree\":\"false\"");
    push_text(&mut r, "\"isaccessibleforfree\": \"false\"");
    push_text(&mut r, "class=\"paywall\"");
    push_text(&mut r, "id=\"paywall\"");
    push_text(&mut r, "class='paywall'");
    push_text(&mut r, "id='paywall'");
    push_text(&mut r, "data-paywall");
    push_text(&mut r, "class=\"tp-");
    push_text(&mut r, "id=\"tp-");
    push_text(&mut r, "subscribe to read");
    push_text(&mut r, "subscribe to continue");
    push_text(&mut r, "subscribe to keep reading");
    push_text(&mut r, "subscription required");
    push_text(&mut r, "subscriber-only");
    push_text(&mut r, "subscribers only");
    push_text(&mut r, "already a subscriber?");
    push_text(&mut r, "become a subscriber");
    push_text(&mut r, "premium article");
    push_text(&mut r, "premium content");
    push_text(&mut r, "members only");
    push_text(&mut r, "sign up to read");
    push_text(&mut r, "register to read");
    push_text(&mut r, "reading limit reached");
    push_text(&mut r, "free articles remaining");
    push_text(&mut r, "free article");
    assert(texts(r@) =~= paywall_marks());
    r
}

/// A page is behind a login: its URL leads to one, or it asks for a password.
pub open spec fn behind_login(final_url: Seq<char>, html: Seq<char>) -> bool {
    holds_any(lowercase_of(final_url), login_paths()) || holds_any(
        lowercase_of(html),
        password_fields(),
    )
}

/// Whether a page is behind a login. Such pages are private, and no archive has them.
pub fn is_auth_wall(final_url: &str, html: &str) -> (r: bool)
    ensures
        r == behind_login(final_url@, html@),
{
    let url_lower: String = final_url.to_lowercase();
    if has_any(url_lower.as_str(), &login_list()) {
        return true;
    }
    let html_lower: String = html.to_lowercase();
    has_any(html_lower.as_str(), &password_list())
}

/// A page is gated behind a subscription.
pub open spec fn behind_paywall(html: Seq<char>) -> bool {
    holds_any(lowercase_of(html), paywall_marks())
}

/// Whether a page is gated behind a subscription. Archives may have a copy of it.
pub fn is_paywall(html: &str) -> (r: bool)
    ensures
        r == behind_paywall(html@),
{
    let lower: String = html.to_lowercase();
    has_any(lower.as_str(), &paywall_list())
}

proof fn lemma_login_paths_are_ascii()
    ensures
        forall|k: int|
            0 <= k < login_paths().len() ==> is_ascii_text(#[trigger] login_paths()[k]),
{
    reveal_strlit("/login");
    reveal_strlit("/signin");
    reveal_strlit("/sign-in");
    reveal_strlit("/auth/");
    reveal_strlit("/authenticate");
}

proof fn lemma_password_fields_are_ascii()
    ensures
        forall|k: int|
            0 <= k < password_fields().len() ==> is_ascii_text(#[trigger] password_fields()[k]),
{
    reveal_strlit("type=\"password\"");
    reveal_strlit("type='password'");
}

proof fn lemma_paywall_marks_are_ascii()
    ensures
        forall|k: int|
            0 <= k < paywall_marks().len() ==> is_ascii_text(#[trigger] paywall_marks()[k]),
{
    reveal_strlit("\"isaccessibleforfree\":\"false\"");
    reveal_strlit("\"isaccessibleforfree\": \"false\"");
    reveal_strlit("class=\"paywall\"");
    reveal_strlit("id=\"paywall\"");
    reveal_strlit("class='paywall'");
    reveal_strlit("id='paywall'");
    reveal_strlit("data-paywall");
    reveal_strlit("class=\"tp-");
    reveal_strlit("id=\"tp-");
    reveal_strlit("subscribe to read");
    reveal_strlit("subscribe to continue");
    reveal_strlit("subscribe to keep reading");
    reveal_strlit("subscription required");
    reveal_strlit("subscriber-only");
    reveal_strlit("subscribers only");
    reveal_strlit("already a subscriber?");
    reveal_strlit("become a subscriber");
    reveal_strlit("premium article");
    reveal_strlit("premium content");
    reveal_strlit("members only");
    reveal_strlit("sign up to read");
    reveal_strlit("register to read");
    reveal_strlit("reading limit reached");
    reveal_strlit("free articles remaining");
    reveal_strlit("free article");
}

proof fn lemma_marks_stay(
    before: Seq<char>,
    s: Seq<char>,
    behind: Seq<char>,
    marks: Seq<Seq<char>>,
)
    requires
        forall|k: int| 0 <= k < marks.len() ==> is_ascii_text(#[trigger] marks[k]),
        holds_any(lowercase_of(s), marks),
    ensures
        holds_any(lowercase_of(before + s + behind), marks),
{
    let k = choose|k: int|
        0 <= k < marks.len() && contains_text(lowercase_of(s), #[trigger] marks[k]);
    law_surroundings_hide_no_words(before, s, behind, marks[k]);
}

proof fn lemma_case_of_marks(s: Seq<char>, marks: Seq<Seq<char>>)
    requires
        forall|k: int| 0 <= k < marks.len() ==> is_ascii_text(#[trigger] marks[k]),
    ensures
        holds_any(lowercase_of(ascii_uppered(s)), marks) == holds_any(lowercase_of(s), marks),
{
    assert forall|k: int| 0 <= k < marks.len() implies contains_text(
        lowercase_of(ascii_uppered(s)),
        #[trigger] marks[k],
    ) == contains_text(lowercase_of(s), marks[k]) by {
        law_case_hides_no_words(s, marks[k]);
    }
}

/// What stands around a gated page does not hide its gate: a text that holds the text of a gated
/// page is that of a gated page too.
pub proof fn law_surroundings_hide_no_paywall(
    before: Seq<char>,
    html: Seq<char>,
    behind: Seq<char>,
)
    ensures
        behind_paywall(html) ==> behind_paywall(before + html + behind),
{
    if behind_paywall(html) {
        lemma_paywall_marks_are_ascii();
        lemma_marks_stay(before, html, behind, paywall_marks());
    }
}

/// The case of ASCII letters hides no gate: of two pages that differ in it alone, both are gated
/// or neither is.
pub proof fn law_case_hides_no_paywall(html: Seq<char>, page: Seq<char>)
    requires
        ascii_uppered(html) == ascii_uppered(page),
    ensures
        behind_paywall(html) == behind_paywall(page),
{
    lemma_paywall_marks_are_ascii();
    lemma_case_of_marks(html, paywall_marks());
    lemma_case_of_marks(page, paywall_marks());
}

/// What stands around a URL or a page hides no login in it.
pub proof fn law_surroundings_hide_no_login(
    url_before: Seq<char>,
    final_url: Seq<char>,
    url_behind: Seq<char>,
    before: Seq<char>,
    html: Seq<char>,
    behind: Seq<char>,
)
    ensures
        behind_login(final_url, html) ==> behind_login(
            url_before + final_url + url_behind,
            before + html + behind,
        ),
{
    lemma_login_paths_are_ascii();
    lemma_password_fields_are_ascii();
    if holds_any(lowercase_of(final_url), login_paths()) {
        lemma_marks_stay(url_before, final_url, url_behind, login_paths());
    }
    if holds_any(lowercase_of(html), password_fields()) {
        lemma_marks_stay(before, html, behind, password_fields());
    }
}

/// The case of ASCII letters in the URL and in the page hides no login.
pub proof fn law_case_hides_no_login(
    final_url: Seq<char>,
    url: Seq<char>,
    html: Seq<char>,
    page: Seq<char>,
)
    requires
        ascii_uppered(final_url) == ascii_uppered(url),
        ascii_uppered(html) == ascii_uppered(page),
    ensures
        behind_login(final_url, html) == behind_login(url, page),
{
    lemma_login_paths_are_ascii();
    lemma_password_fields_are_ascii();
    lemma_case_of_marks(final_url, login_paths());
    lemma_case_of_marks(url, login_paths());
    lemma_case_of_marks(html, password_fields());
    lemma_case_of_marks(page, password_fields());
}

/// A value that may be missing, with something put in front of it.
pub open spec fn prepended(front: Seq<char>, rest: Option<Seq<char>>) -> Option<Seq<char>> {
    match rest {
        Some(r) => Some(front + r),
        None => None,
    }
}

/// The character that a hexadecimal number stands for; nothing where it stands for none.
pub open spec fn coded(hex: Seq<char>) -> Seq<char> {
    match parsed_u32(hex, 16) {
        Some(n) => if is_char_code(n) {
            seq![n as char]
        } else {
            Seq::empty()
        },
        None => Seq::empty(),
    }
}

/// What a backslash and a character behind it stand for. Unknown pairs stay as they are.
pub open spec fn escaped(c: char) -> Seq<char> {
    if c == 'n' {
        seq!['\n']
    } else if c == 't' {
        seq!['\t']
    } else if c == 'r' {
        seq!['\r']
    } else if c == '"' {
        seq!['"']
    } else if c == '\\' {
        seq!['\\']
    } else {
        seq!['\\', c]
    }
}

/// How many characters the number of an escape takes: four, or those that are left.
pub open spec fn hex_len(s: Seq<char>) -> int {
    if s.len() < 6 {
        s.len() - 2
    } else {
        4
    }
}

/// The value of a string literal whose opening quote stands before `s`; none where it is not
/// closed.
pub open spec fn literal_value(s: Seq<char>) -> Option<Seq<char>>
    decreases s.len(),
{
    if s.len() == 0 {
        None
    } else if s[0] == '"' {
        Some(Seq::empty())
    } else if s[0] == '\\' {
        if s.len() < 2 {
            None
        } else if s[1] == 'u' {
            prepended(coded(s.subrange(2, 2 + hex_len(s))), literal_value(s.skip(2 + hex_len(s))))
        } else {
            prepended(escaped(s[1]), literal_value(s.skip(2)))
        }
    } else {
        prepended(seq![s[0]], literal_value(s.skip(1)))
    }
}

/// The first place of `p` in `s` is `i`.
pub open spec fn first_occurs(s: Seq<char>, p: Seq<char>, i: int) -> bool {
    occurs_at(s, p, i) && forall|k: int| 0 <= k < i ==> !#[trigger] occurs_at(s, p, k)
}

/// The first place of `p` in `s`, where there is one.
pub open spec fn first_place(s: Seq<char>, p: Seq<char>) -> Option<int> {
    if contains_text(s, p) {
        Some(choose|i: int| 0 <= i <= s.len() && first_occurs(s, p, i))
    } else {
        None
    }
}

/// A field name with its quotes, the colon, and the opening quote of its value.
pub open spec fn field_start(field: Seq<char>) -> Seq<char> {
    "\""@ + field + "\":\""@
}

/// The value of a string field in raw text, if it has more than twenty bytes.
pub open spec fn field_value(html: Seq<char>, field: Seq<char>) -> Option<Seq<char>> {
    match first_place(html, field_start(field)) {
        Some(i) => match literal_value(html.skip(i + field_start(field).len())) {
            Some(v) => if encode_utf8(v).len() > 20 {
                Some(v)
            } else {
                None
            },
            None => None,
        },
        None => None,
    }
}

/// The characters from place `from` on, `n` of them.
fn piece(v: &Vec<char>, from: usize, n: usize) -> (r: String)
    requires
        from + n <= v@.len(),
    ensures
        r@ == v@.subrange(from as int, from + n),
{
    let len: usize = v.len();
    let mut out: String = String::new();
    let mut k: usize = 0;
    assert(out@ =~= v@.subrange(from as int, from as int));
    while k < n
        invariant
            k <= n,
            len == v@.len(),
            from + n <= len,
            out@ == v@.subrange(from as int, from + k),
        decreases n - k,
    {
        out.push(v[from + k]);
        assert(out@ =~= v@.subrange(from as int, from + k + 1));
        k = k + 1;
    }
    out
}

/// The character that a hexadecimal number stands for; nothing where it stands for none.
fn decode_hex(hex: &str) -> (r: String)
    ensures
        r@ == coded(hex@),
{
    let mut out: String = String::new();
    if let Some(code) = parse_u32(hex, 16) {
        if let Some(c) = char::from_u32(code) {
            out.push(c);
            proof {
                lemma_char_of_code(c, code);
            }
        }
    }
    assert(out@ =~= coded(hex@));
    out
}

/// What a backslash and a character behind it stand for.
fn decode_escape(c: char) -> (r: String)
    ensures
        r@ == escaped(c),
{
    let mut out: String = String::new();
    if c == 'n' {
        out.push('\n');
    } else if c == 't' {
        out.push('\t');
    } else if c == 'r' {
        out.push('\r');
    } else if c == '"' {
        out.push('"');
    } else if c == '\\' {
        out.push('\\');
    } else {
        out.push('\\');
        out.push(c);
    }
    assert(out@ =~= escaped(c));
    out
}

/// One character, or one escape, of a string literal at place `i`: its value, and the place
/// behind it.
fn read_one(v: &Vec<char>, i: usize) -> (r: Option<(String, usize)>)
    requires
        i < v@.len(),
        v@[i as int] != '"',
    ensures
        match r {
            Some((value, next)) => i < next <= v@.len() && literal_value(v@.skip(i as int))
                == prepended(value@, literal_value(v@.skip(next as int))),
            None => literal_value(v@.skip(i as int)) is None,
        },
{
    let len: usize = v.len();
    let ghost rest = v@.skip(i as int);
    let c: char = v[i];
    assert(rest[0] == c);
    if c != '\\' {
        let mut value: String = String::new();
        value.push(c);
        assert(value@ =~= seq![c]);
        assert(rest.skip(1) =~= v@.skip(i + 1));
        return Some((value, i + 1));
    }
    if i + 1 == len {
        return None;
    }
    let e: char = v[i + 1];
    assert(rest[1] == e);
    if e != 'u' {
        assert(rest.skip(2) =~= v@.skip(i + 2));
        return Some((decode_escape(e), i + 2));
    }
    let n: usize = if len - i < 6 {
        len - i - 2
    } else {
        4
    };
    assert(n == hex_len(rest));
    let hex: String = piece(v, i + 2, n);
    assert(hex@ =~= rest.subrange(2, 2 + n));
    assert(rest.skip(2 + n) =~= v@.skip(i + 2 + n));
    Some((decode_hex(hex.as_str()), i + 2 + n))
}

/// The value of a string literal whose opening quote stands before place `from`.
fn read_literal(v: &Vec<char>, from: usize) -> (r: Option<String>)
    requires
        from <= v@.len(),
    ensures
        opt(r) == literal_value(v@.skip(from as int)),
{
    let ghost start = v@.skip(from as int);
    let mut value: String = String::new();
    let mut i: usize = from;
    assert(prepended(value@, literal_value(start)) == literal_value(start)) by {
        if let Some(x) = literal_value(start) {
            assert(value@ + x =~= x);
        }
    }
    while i < v.len()
        invariant
            from <= i <= v@.len(),
            start == v@.skip(from as int),
            literal_value(start) == prepended(value@, literal_value(v@.skip(i as int))),
        decreases v@.len() - i,
    {
        if v[i] == '"' {
            assert(v@.skip(i as int)[0] == '"');
            assert(value@ + Seq::<char>::empty() =~= value@);
            return Some(value);
        }
        match read_one(v, i) {
            Some((one, next)) => {
                proof {
                    lemma_prepended(value@, one@, literal_value(v@.skip(next as int)));
                }
                value.append(one.as_str());
                i = next;
            },
            None => {
                return None;
            },
        }
    }
    None
}

proof fn lemma_prepended(a: Seq<char>, b: Seq<char>, rest: Option<Seq<char>>)
    ensures
        prepended(a, prepended(b, rest)) == prepended(a + b, rest),
{
    if let Some(r) = rest {
        assert(a + (b + r) =~= (a + b) + r);
    }
}

/// The value of a string field in raw text, such as the data that a page embeds for its
/// scripts. Values of twenty bytes or less do not count.
pub fn extract_json_field(html: &str, field: &str) -> (r: Option<String>)
    ensures
        opt(r) == field_value(html@, field@),
{
    let mut needle: String = "\"".to_owned();
    needle.append(field);
    needle.append("\":\"");
    assert(needle@ =~= field_start(field@));
    let h: Vec<char> = chars_of(html);
    let n: Vec<char> = chars_of(needle.as_str());
    let at: usize = match find_text_from(&h, &n, 0) {
        Some(at) => at,
        None => {
            return None;
        },
    };
    proof {
        assert(first_occurs(html@, needle@, at as int));
        let c = choose|i: int| 0 <= i <= html@.len() && first_occurs(html@, needle@, i);
        assert(first_occurs(html@, needle@, c));
        if c < at {
            assert(!occurs_at(html@, needle@, c));
        }
        if at < c {
            assert(!occurs_at(html@, needle@, at as int));
        }
    }
    let total: usize = h.len();
    assert(at + n@.len() <= total);
    match read_literal(&h, at + n.len()) {
        Some(value) => {
            if byte_len(value.as_str()) > 20 {
                Some(value)
            } else {
                None
            }
        },
        None => None,
    }
}

/// The text of a page: the visible one where it has 200 bytes or more, else a description that
/// the page embeds for its scripts, else the one in its head, else what is visible.
pub open spec fn settled(
    visible: Seq<char>,
    embedded: Option<Seq<char>>,
    meta: Option<Seq<char>>,
) -> Seq<char> {
    if encode_utf8(visible).len() >= 200 {
        visible
    } else {
        match embedded {
            Some(s) => s,
            None => match meta {
                Some(s) => s,
                None => visible,
            },
        }
    }
}

/// What is taken from a page.
pub open spec fn page_of(html: Seq<char>) -> Page {
    Page {
        title: title_of(selected_texts(html, "title"@)),
        body: settled(
            body_of(body_found(html)),
            field_value(html, "shortDescription"@),
            description_of(meta_found(html)),
        ),
        recipe: None,
    }
}

/// The text of a page: the visible one where there is enough of it, else a description.
pub fn settle_body(visible: String, embedded: Option<String>, meta: Option<String>) -> (r: String)
    ensures
        r@ == settled(visible@, opt(embedded), opt(meta)),
{
    if byte_len(visible.as_str()) >= 200 {
        return visible;
    }
    match embedded {
        Some(s) => s,
        None => match meta {
            Some(s) => s,
            None => visible,
        },
    }
}

/// The title and the text of a page.
pub fn extract(html: &str) -> (r: ExtractedPage)
    ensures
        r@ == page_of(html@),
{
    let title: String = extract_title(html);
    let visible: String = extract_body(html);
    let body: String = if byte_len(visible.as_str()) >= 200 {
        visible
    } else {
        settle_body(visible, extract_json_field(html, "shortDescription"), meta_description(html))
    };
    ExtractedPage { title, body, recipe: None }
}

/// The text of an element, where its text has more than fifty bytes.
pub open spec fn long_text(found: Seq<Seq<Seq<char>>>) -> Option<Seq<char>> {
    if found.len() > 0 && encode_utf8(joined(node_texts(found[0]), " "@)).len() > 50 {
        Some(joined(node_texts(found[0]), " "@))
    } else {
        None
    }
}

/// The text of a page is that of its main element where that has more than fifty bytes; else of
/// its article; else of the element with the role of the main one; else of the one named for the
/// content; else of the one named main. Only where none of these has more than fifty bytes is it
/// that of the whole body, and nothing where that has no more either.
pub proof fn law_the_best_element_gives_the_text(html: Seq<char>)
    ensures
        ({
            let main = long_text(selected_texts(html, "main"@));
            let article = long_text(selected_texts(html, "article"@));
            let role = long_text(selected_texts(html, "[role='main']"@));
            let content = long_text(selected_texts(html, "#content"@));
            let named = long_text(selected_texts(html, "#main"@));
            let body = long_text(selected_texts(html, "body"@));
            let text = body_of(body_found(html));
            &&& main is Some ==> text == main->0
            &&& main is None && article is Some ==> text == article->0
            &&& main is None && article is None && role is Some ==> text == role->0
            &&& main is None && article is None && role is None && content is Some ==> text
                == content->0
            &&& main is None && article is None && role is None && content is None && named is Some
                ==> text == named->0
            &&& main is None && article is None && role is None && content is None && named is None
                && body is Some ==> text == body->0
            &&& main is None && article is None && role is None && content is None && named is None
                && body is None ==> text.len() == 0
        }),
{
    let all = body_found(html);
    reveal_with_fuel(body_of, 8);
    assert(all.len() == 6);
    let a1 = all.drop_first();
    let a2 = a1.drop_first();
    let a3 = a2.drop_first();
    let a4 = a3.drop_first();
    let a5 = a4.drop_first();
    let a6 = a5.drop_first();
    assert(all[0] == selected_texts(html, "main"@));
    assert(a1[0] == selected_texts(html, "article"@));
    assert(a2[0] == selected_texts(html, "[role='main']"@));
    assert(a3[0] == selected_texts(html, "#content"@));
    assert(a4[0] == selected_texts(html, "#main"@));
    assert(a5[0] == selected_texts(html, "body"@));
    assert(a6.len() == 0);
}

/// The text of an element is made of its text nodes, with white space evened out and without the
/// blank ones, in their order and with a space between.
pub proof fn law_every_text_node_counts(nodes: Seq<Seq<char>>)
    ensures
        picked(
            nodes.len(),
            node_texts(nodes),
            |i: int| words(nodes[i], WordKind::Printed).len() > 0,
            |i: int| joined(words(nodes[i], WordKind::Printed), " "@),
        ),
    decreases nodes.len(),
{
    let chosen = |i: int| words(nodes[i], WordKind::Printed).len() > 0;
    let gives = |i: int| joined(words(nodes[i], WordKind::Printed), " "@);
    if nodes.len() == 0 {
        lemma_picked_none(chosen, gives);
    } else {
        let init = nodes.drop_last();
        law_every_text_node_counts(init);
        lemma_blank_text(nodes.last());
        lemma_picked_one_more(
            init.len(),
            node_texts(init),
            |i: int| words(init[i], WordKind::Printed).len() > 0,
            |i: int| joined(words(init[i], WordKind::Printed), " "@),
            node_texts(nodes),
            chosen,
            gives,
        );
    }
}

proof fn lemma_blank_text(s: Seq<char>)
    ensures
        normalized(s).len() > 0 <==> words(s, WordKind::Printed).len() > 0,
{
    let list = words(s, WordKind::Printed);
    lemma_words_have_characters(s, WordKind::Printed);
    if list.len() == 1 {
        assert(list[0].len() > 0);
    } else if list.len() > 1 {
        reveal_strlit(" ");
    }
}

/// The title of a page is the text of its first title element, with white space evened out.
pub proof fn law_the_first_title_counts(html: Seq<char>)
    ensures
        ({
            let found = selected_texts(html, "title"@);
            page_of(html).title == if found.len() == 0 {
                Seq::empty()
            } else {
                joined(words(joined(found[0], ""@), WordKind::Printed), " "@)
            }
        }),
{
    assert(closed_words(Seq::empty(), WordKind::Printed) =~= Seq::empty());
    assert(normalized(Seq::empty()) =~= Seq::empty());
}

/// A page keeps its visible text where that has two hundred bytes or more. Else the description
/// that it embeds for its scripts stands in, else the one in its head; where it has neither, its
/// visible text stays.
pub proof fn law_short_texts_give_way_to_descriptions(html: Seq<char>)
    ensures
        ({
            let visible = body_of(body_found(html));
            let embedded = field_value(html, "shortDescription"@);
            let og = first_filled(
                selected_attrs(html, r#"meta[property="og:description"]"#@, "content"@),
            );
            let plain = first_filled(
                selected_attrs(html, r#"meta[name="description"]"#@, "content"@),
            );
            let body = page_of(html).body;
            &&& encode_utf8(visible).len() >= 200 ==> body == visible
            &&& encode_utf8(visible).len() < 200 && embedded is Some ==> body == embedded->0
            &&& encode_utf8(visible).len() < 200 && embedded is None && og is Some ==> body == og->0
            &&& encode_utf8(visible).len() < 200 && embedded is None && og is None && plain is Some
                ==> body == plain->0
            &&& encode_utf8(visible).len() < 200 && embedded is None && og is None && plain is None
                ==> body == visible
            &&& page_of(html).recipe is None
        }),
{
    let found = meta_found(html);
    reveal_with_fuel(description_of, 4);
    assert(found.len() == 2);
    assert(found.drop_first()[0] == found[1]);
    assert(found.drop_first().drop_first().len() == 0);
}

/// The first of several values, trimmed, where it is there and is not blank.
pub open spec fn first_filled(found: Seq<Option<Seq<char>>>) -> Option<Seq<char>> {
    if found.len() > 0 && found[0] is Some && trimmed(found[0]->0).len() > 0 {
        Some(trimmed(found[0]->0))
    } else {
        None
    }
}

/// A page that asks for a password, in either kind of quotes, or whose URL leads to a login, is
/// behind one.
pub proof fn law_logins_are_told(final_url: Seq<char>, html: Seq<char>)
    ensures
        behind_login(final_url, html) <==> {
            let url = lowercase_of(final_url);
            let page = lowercase_of(html);
            ||| contains_text(url, "/login"@)
            ||| contains_text(url, "/signin"@)
            ||| contains_text(url, "/sign-in"@)
            ||| contains_text(url, "/auth/"@)
            ||| contains_text(url, "/authenticate"@)
            ||| contains_text(page, "type=\"password\""@)
            ||| contains_text(page, "type='password'"@)
        },
{
    let url = lowercase_of(final_url);
    let page = lowercase_of(html);
    let paths = login_paths();
    let fields = password_fields();
    assert(paths[0] == "/login"@ && paths[1] == "/signin"@ && paths[2] == "/sign-in"@ && paths[3]
        == "/auth/"@ && paths[4] == "/authenticate"@);
    assert(fields[0] == "type=\"password\""@ && fields[1] == "type='password'"@);
    if holds_any(url, paths) {
        let i = choose|i: int| 0 <= i < paths.len() && contains_text(url, #[trigger] paths[i]);
        assert(i == 0 || i == 1 || i == 2 || i == 3 || i == 4);
    }
    if holds_any(page, fields) {
        let i = choose|i: int| 0 <= i < fields.len() && contains_text(page, #[trigger] fields[i]);
        assert(i == 0 || i == 1);
    }
}

/// A page that speaks of a subscription, or marks itself as not free, is gated behind one.
pub proof fn law_paywalls_are_told(html: Seq<char>)
    ensures
        behind_paywall(html) <==> {
            let page = lowercase_of(html);
            ||| contains_text(page, "\"isaccessibleforfree\":\"false\""@)
            ||| contains_text(page, "\"isaccessibleforfree\": \"false\""@)
            ||| contains_text(page, "class=\"paywall\""@)
            ||| contains_text(page, "id=\"paywall\""@)
            ||| contains_text(page, "class='paywall'"@)
            ||| contains_text(page, "id='paywall'"@)
            ||| contains_text(page, "data-paywall"@)
            ||| contains_text(page, "class=\"tp-"@)
            ||| contains_text(page, "id=\"tp-"@)
            ||| contains_text(page, "subscribe to read"@)
            ||| contains_text(page, "subscribe to continue"@)
            ||| contains_text(page, "subscribe to keep reading"@)
            ||| contains_text(page, "subscription required"@)
            ||| contains_text(page, "subscriber-only"@)
            ||| contains_text(page, "subscribers only"@)
            ||| contains_text(page, "already a subscriber?"@)
            ||| contains_text(page, "become a subscriber"@)
            ||| contains_text(page, "premium article"@)
            ||| contains_text(page, "premium content"@)
            ||| contains_text(page, "members only"@)
            ||| contains_text(page, "sign up to read"@)
            ||| contains_text(page, "register to read"@)
            ||| contains_text(page, "reading limit reached"@)
            ||| contains_text(page, "free articles remaining"@)
            ||| contains_text(page, "free article"@)
        },
{
    let page = lowercase_of(html);
    let marks = paywall_marks();
    assert(marks[0] == "\"isaccessibleforfree\":\"false\""@);
    assert(marks[1] == "\"isaccessibleforfree\": \"false\""@);
    assert(marks[2] == "class=\"paywall\""@);
    assert(marks[3] == "id=\"paywall\""@);
    assert(marks[4] == "class='paywall'"@);
    assert(marks[5] == "id='paywall'"@);
    assert(marks[6] == "data-paywall"@);
    assert(marks[7] == "class=\"tp-"@);
    assert(marks[8] == "id=\"tp-"@);
    assert(marks[9] == "subscribe to read"@);
    assert(marks[10] == "subscribe to continue"@);
    assert(marks[11] == "subscribe to keep reading"@);
    assert(marks[12] == "subscription required"@);
    assert(marks[13] == "subscriber-only"@);
    assert(marks[14] == "subscribers only"@);
    assert(marks[15] == "already a subscriber?"@);
    assert(marks[16] == "become a subscriber"@);
    assert(marks[17] == "premium article"@);
    assert(marks[18] == "premium content"@);
    assert(marks[19] == "members only"@);
    assert(marks[20] == "sign up to read"@);
    assert(marks[21] == "register to read"@);
    assert(marks[22] == "reading limit reached"@);
    assert(marks[23] == "free articles remaining"@);
    assert(marks[24] == "free article"@);
    if holds_any(page, marks) {
        let i = choose|i: int| 0 <= i < marks.len() && contains_text(page, #[trigger] marks[i]);
        assert(i == 0 || i == 1 || i == 2 || i == 3 || i == 4 || i == 5 || i == 6 || i == 7 || i == 8 || i == 9 || i == 10 || i == 11 || i == 12 || i == 13 || i == 14 || i == 15 || i == 16 || i == 17 || i == 18 || i == 19 || i == 20 || i == 21 || i == 22 || i == 23 || i == 24);
    }
}

/// The value of a string field in raw text is what stands between the first place of its name,
/// with a colon and a quote behind it, and the next quote that is not escaped; values of twenty
/// bytes or less do not count.
pub proof fn law_the_first_long_value_counts(
    before: Seq<char>,
    field: Seq<char>,
    value: Seq<char>,
    rest: Seq<char>,
)
    requires
        forall|i: int| 0 <= i < value.len() ==> #[trigger] value[i] != '"' && value[i] != '\\',
        first_occurs(
            before + ("\""@ + field + "\":\""@) + value + "\""@ + rest,
            "\""@ + field + "\":\""@,
            before.len() as int,
        ),
    ensures
        field_value(before + ("\""@ + field + "\":\""@) + value + "\""@ + rest, field)
            == if encode_utf8(value).len() > 20 {
            Some(value)
        } else {
            None
        },
{
    let start = "\""@ + field + "\":\""@;
    let html = before + start + value + "\""@ + rest;
    let at = before.len() as int;
    assert(contains_text(html, start));
    let c = choose|i: int| 0 <= i <= html.len() && first_occurs(html, start, i);
    assert(first_occurs(html, start, c));
    if c < at {
        assert(!occurs_at(html, start, c));
    }
    if at < c {
        assert(!occurs_at(html, start, at));
    }
    reveal_strlit("\"");
    assert(html.skip(at + start.len()) =~= value + seq!['"'] + rest);
    lemma_plain_literal(value, rest);
}

proof fn lemma_plain_literal(value: Seq<char>, rest: Seq<char>)
    requires
        forall|i: int| 0 <= i < value.len() ==> #[trigger] value[i] != '"' && value[i] != '\\',
    ensures
        literal_value(value + seq!['"'] + rest) == Some(value),
    decreases value.len(),
{
    let s = value + seq!['"'] + rest;
    if value.len() == 0 {
        assert(s[0] == '"');
        assert(value =~= Seq::empty());
    } else {
        let tail = value.drop_first();
        assert forall|i: int| 0 <= i < tail.len() implies #[trigger] tail[i] != '"' && tail[i]
            != '\\' by {
            assert(tail[i] == value[i + 1]);
        }
        lemma_plain_literal(tail, rest);
        assert(s[0] == value[0]);
        assert(s.skip(1) =~= tail + seq!['"'] + rest);
        assert(seq![value[0]] + tail =~= value);
    }
}

/// An escape in a string literal stands for its character: a line feed, a tab, a return, a quote, a
/// backslash, or the one whose number follows in four digits; any other pair stays as it is. A
/// literal ends at its quote.
pub proof fn law_escapes_stand_for_characters(c: char, hex: Seq<char>, rest: Seq<char>)
    requires
        hex.len() == 4,
    ensures
        literal_value(seq!['"'] + rest) == Some(Seq::<char>::empty()),
        literal_value(seq!['\\', 'n'] + rest) == prepended(seq!['\n'], literal_value(rest)),
        literal_value(seq!['\\', 't'] + rest) == prepended(seq!['\t'], literal_value(rest)),
        literal_value(seq!['\\', 'r'] + rest) == prepended(seq!['\r'], literal_value(rest)),
        literal_value(seq!['\\', '"'] + rest) == prepended(seq!['"'], literal_value(rest)),
        literal_value(seq!['\\', '\\'] + rest) == prepended(seq!['\\'], literal_value(rest)),
        c != 'n' && c != 't' && c != 'r' && c != '"' && c != '\\' && c != 'u' ==> literal_value(
            seq!['\\', c] + rest,
        ) == prepended(seq!['\\', c], literal_value(rest)),
        c != '"' && c != '\\' ==> literal_value(seq![c] + rest) == prepended(
            seq![c],
            literal_value(rest),
        ),
        parsed_u32(hex, 16) matches Some(n) ==> is_char_code(n) ==> literal_value(
            seq!['\\', 'u'] + hex + rest,
        ) == prepended(seq![n as char], literal_value(rest)),
        literal_value(Seq::empty()) is None,
{
    lemma_pair('n', rest);
    lemma_pair('t', rest);
    lemma_pair('r', rest);
    lemma_pair('"', rest);
    lemma_pair('\\', rest);
    if c != 'u' {
        lemma_pair(c, rest);
    }
    let one = seq![c] + rest;
    assert(one.skip(1) =~= rest);
    assert(one[0] == c);
    assert((seq!['"'] + rest)[0] == '"');
    let coded_text = seq!['\\', 'u'] + hex + rest;
    assert(coded_text[0] == '\\' && coded_text[1] == 'u');
    assert(coded_text.subrange(2, 6) =~= hex);
    assert(coded_text.skip(6) =~= rest);
}

proof fn lemma_pair(c: char, rest: Seq<char>)
    requires
        c != 'u',
    ensures
        literal_value(seq!['\\', c] + rest) == prepended(escaped(c), literal_value(rest)),
{
    let s = seq!['\\', c] + rest;
    assert(s[0] == '\\' && s[1] == c);
    assert(s.skip(2) =~= rest);
}

} // verus!
