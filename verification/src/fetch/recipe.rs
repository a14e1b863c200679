//! Recipes, out of structured data in a page or out of its text.

use vstd::prelude::*;
use vstd::string::*;
use vstd::utf8::{decode_utf8, encode_utf8, is_char_boundary};

use crate::config::{host_of, strip_port, without_port};
use crate::fetch::extract::{join_each, scripts_of, select_texts};
use crate::lists::{lemma_picked_none, lemma_picked_one_more, picked, push_text};
use crate::json::{parse_json, parsed_json, trees, Json, Tree};
use crate::text;
use crate::text::{
    ascii_lowered, before_first, contains, contains_text, decimal, filled, filled_texts,
    find_first_of, first_of, has_prefix, join, joined, lowercase_of, opt, parse_u32, parsed_u32,
    same_ignoring_case, split, split_at_char, strip_prefix, tail_from, texts, trim, trimmed,
};

verus! {

/// A recipe.
#[derive(Debug)]
pub struct RecipeCard {
    pub name: String,
    pub ingredients: Vec<String>,
    pub instructions: Vec<String>,
    pub prep_time: Option<String>,
    pub cook_time: Option<String>,
    pub servings: Option<String>,
    pub image_url: Option<String>,
}

/// What a recipe stands for.
#[verifier::ext_equal]
pub struct Recipe {
    pub name: Seq<char>,
    pub ingredients: Seq<Seq<char>>,
    pub instructions: Seq<Seq<char>>,
    pub prep_time: Option<Seq<char>>,
    pub cook_time: Option<Seq<char>>,
    pub servings: Option<Seq<char>>,
    pub image_url: Option<Seq<char>>,
}

impl View for RecipeCard {
    type V = Recipe;

    open spec fn view(&self) -> Recipe {
        Recipe {
            name: self.name@,
            ingredients: texts(self.ingredients@),
            instructions: texts(self.instructions@),
            prep_time: opt(self.prep_time),
            cook_time: opt(self.cook_time),
            servings: opt(self.servings),
            image_url: opt(self.image_url),
        }
    }
}

/// The first text of a list of trees.
pub open spec fn first_text(list: Seq<Tree>) -> Option<Seq<char>>
    decreases list.len(),
{
    if list.len() == 0 {
        None
    } else {
        match list[0].as_text() {
            Some(s) => Some(s),
            None => first_text(list.drop_first()),
        }
    }
}

/// The type that a tree says it has: a text, or the first text of a list.
pub open spec fn type_of(t: Tree) -> Option<Seq<char>> {
    match t.get("@type"@) {
        Some(Tree::Text(s)) => Some(s),
        Some(Tree::List(list)) => first_text(list),
        _ => None,
    }
}

/// The texts of a list of trees; the other trees are passed over.
pub open spec fn texts_in(list: Seq<Tree>) -> Seq<Seq<char>>
    decreases list.len(),
{
    if list.len() == 0 {
        Seq::empty()
    } else {
        match list.last().as_text() {
            Some(s) => texts_in(list.drop_last()).push(s),
            None => texts_in(list.drop_last()),
        }
    }
}

/// The texts that the trees of a list have under a name; trees without one are passed over.
pub open spec fn texts_under(list: Seq<Tree>, name: Seq<char>) -> Seq<Seq<char>>
    decreases list.len(),
{
    if list.len() == 0 {
        Seq::empty()
    } else {
        match list.last().text_at(name) {
            Some(s) => texts_under(list.drop_last(), name).push(s),
            None => texts_under(list.drop_last(), name),
        }
    }
}

/// A step of the instructions: a text, an object with a text, or a section whose steps have
/// texts. Empty where there is none.
pub open spec fn step_of(t: Tree) -> Seq<char> {
    match t {
        Tree::Text(s) => trimmed(s),
        _ => match t.text_at("text"@) {
            Some(s) => trimmed(s),
            None => match t.list_at("itemListElement"@) {
                Some(steps) => joined(filled(texts_under(steps, "text"@)), " "@),
                None => Seq::empty(),
            },
        },
    }
}

/// The steps of a list of trees, without the empty ones.
pub open spec fn steps_of(list: Seq<Tree>) -> Seq<Seq<char>>
    decreases list.len(),
{
    if list.len() == 0 {
        Seq::empty()
    } else {
        text::with_word(steps_of(list.drop_last()), step_of(list.last()))
    }
}

/// The instructions of a recipe: the lines of a text, or the steps of a list.
pub open spec fn instructions_of(t: Tree) -> Seq<Seq<char>> {
    match t.get("recipeInstructions"@) {
        Some(Tree::Text(s)) => filled(split(s, '\n')),
        Some(Tree::List(list)) => steps_of(list),
        _ => Seq::empty(),
    }
}

/// The first tree of a list that is a text, as a text.
pub open spec fn head_text(list: Seq<Tree>) -> Option<Seq<char>> {
    if list.len() == 0 {
        None
    } else {
        list[0].as_text()
    }
}

/// The yield of a recipe: a text, a natural number, or the text at the head of a list.
pub open spec fn servings_of(t: Tree) -> Option<Seq<char>> {
    match t.get("recipeYield"@) {
        Some(Tree::Text(s)) => Some(trimmed(s)),
        Some(Tree::Unsigned(n)) => Some(decimal(n as nat)),
        Some(Tree::List(list)) => match head_text(list) {
            Some(s) => Some(trimmed(s)),
            None => None,
        },
        _ => None,
    }
}

/// The picture of a recipe: a URL, an object with one, or either at the head of a list.
pub open spec fn image_of(t: Tree) -> Option<Seq<char>> {
    match t.get("image"@) {
        Some(Tree::Text(s)) => Some(s),
        Some(Tree::List(list)) => if list.len() == 0 {
            None
        } else {
            match list[0] {
                Tree::Text(s) => Some(s),
                other => other.text_at("url"@),
            }
        },
        Some(other) => other.text_at("url"@),
        None => None,
    }
}

/// The number in front of a letter in a duration; zero where there is none.
pub open spec fn amount(s: Seq<char>, letter: Seq<char>) -> u32 {
    let i = first_of(s, letter);
    if i < s.len() {
        match parsed_u32(s.take(i), 10) {
            Some(n) => n,
            None => 0,
        }
    } else {
        0
    }
}

/// What stands behind a letter in a duration; all of it where the letter is missing.
pub open spec fn behind(s: Seq<char>, letter: Seq<char>) -> Seq<char> {
    let i = first_of(s, letter);
    if i < s.len() {
        s.skip(i + 1)
    } else {
        s
    }
}

/// A duration such as `PT1H30M` in words. One that has no time part, or none but zero hours
/// and minutes, stays as it is.
pub open spec fn duration_words(d: Seq<char>) -> Seq<char> {
    if first_of(d, "T"@) == d.len() {
        d
    } else {
        let time = d.skip(first_of(d, "T"@) + 1);
        let hours = amount(time, "H"@);
        let mins = amount(behind(time, "H"@), "M"@);
        if hours == 0 && mins == 0 {
            d
        } else if hours == 0 {
            decimal(mins as nat) + " min"@
        } else if mins == 0 {
            decimal(hours as nat) + " hr"@
        } else {
            decimal(hours as nat) + " hr "@ + decimal(mins as nat) + " min"@
        }
    }
}

/// The duration under a name, in words.
pub open spec fn duration_at(t: Tree, name: Seq<char>) -> Option<Seq<char>> {
    match t.text_at(name) {
        Some(s) => Some(duration_words(s)),
        None => None,
    }
}

/// The first of two values that is there.
pub open spec fn either(a: Option<Seq<char>>, b: Option<Seq<char>>) -> Option<Seq<char>> {
    match a {
        Some(_) => a,
        None => b,
    }
}

/// The name of a recipe.
pub open spec fn name_of(t: Tree) -> Seq<char> {
    match t.text_at("name"@) {
        Some(s) => trimmed(s),
        None => Seq::empty(),
    }
}

/// The ingredients of a recipe.
pub open spec fn ingredients_of(t: Tree) -> Seq<Seq<char>> {
    match t.list_at("recipeIngredient"@) {
        Some(list) => filled(texts_in(list)),
        None => Seq::empty(),
    }
}

/// The recipe that a tree is: it says so in its type, and it has a name, ingredients or
/// instructions. Where the time of preparing or cooking is missing, the total time stands for
/// it.
pub open spec fn recipe_of(t: Tree) -> Option<Recipe> {
    let said = type_of(t);
    if said is None || ascii_lowered(said.unwrap()) != ascii_lowered("Recipe"@) {
        None
    } else if name_of(t).len() == 0 && ingredients_of(t).len() == 0 && instructions_of(t).len()
        == 0 {
        None
    } else {
        Some(
            Recipe {
                name: name_of(t),
                ingredients: ingredients_of(t),
                instructions: instructions_of(t),
                prep_time: either(duration_at(t, "prepTime"@), duration_at(t, "totalTime"@)),
                cook_time: either(duration_at(t, "cookTime"@), duration_at(t, "totalTime"@)),
                servings: servings_of(t),
                image_url: image_of(t),
            },
        )
    }
}

/// The first recipe of a list of trees.
pub open spec fn first_recipe(list: Seq<Tree>) -> Option<Recipe>
    decreases list.len(),
{
    if list.len() == 0 {
        None
    } else {
        match recipe_of(list[0]) {
            Some(r) => Some(r),
            None => first_recipe(list.drop_first()),
        }
    }
}

/// The recipe of a document: the first of a list or of a graph, or the document itself.
pub open spec fn recipe_in(t: Tree) -> Option<Recipe> {
    match t {
        Tree::List(list) => first_recipe(list),
        _ => match t.list_at("@graph"@) {
            Some(list) => first_recipe(list),
            None => recipe_of(t),
        },
    }
}

/// The first text of a list of trees.
fn find_text<'a>(list: &'a Vec<Json>) -> (r: Option<&'a str>)
    ensures
        match r {
            Some(s) => first_text(trees(list@)) == Some(s@),
            None => first_text(trees(list@)) is None,
        },
{
    let ghost all = trees(list@);
    let mut i: usize = 0;
    assert(all.skip(0) =~= all);
    while i < list.len()
        invariant
            i <= list.len(),
            all == trees(list@),
            first_text(all) == first_text(all.skip(i as int)),
        decreases list.len() - i,
    {
        assert(all.skip(i as int)[0] == list@[i as int].tree());
        assert(all.skip(i as int).drop_first() =~= all.skip(i as int + 1));
        if let Some(s) = list[i].text() {
            return Some(s);
        }
        i = i + 1;
    }
    None
}

/// The texts of a list of trees.
fn all_texts(list: &Vec<Json>) -> (r: Vec<String>)
    ensures
        texts(r@) == texts_in(trees(list@)),
{
    let ghost all = trees(list@);
    let mut out: Vec<String> = Vec::new();
    let mut i: usize = 0;
    assert(texts(out@) =~= texts_in(all.take(0)));
    while i < list.len()
        invariant
            i <= list.len(),
            all == trees(list@),
            texts(out@) == texts_in(all.take(i as int)),
        decreases list.len() - i,
    {
        let ghost t = all.take(i as int + 1);
        assert(t.drop_last() =~= all.take(i as int));
        assert(t.last() == list@[i as int].tree());
        if let Some(s) = list[i].text() {
            push_text(&mut out, s);
        }
        i = i + 1;
    }
    assert(all.take(all.len() as int) =~= all);
    out
}

/// The texts that the trees of a list have under a name.
fn all_texts_under(list: &Vec<Json>, name: &str) -> (r: Vec<String>)
    ensures
        texts(r@) == texts_under(trees(list@), name@),
{
    let ghost all = trees(list@);
    let mut out: Vec<String> = Vec::new();
    let mut i: usize = 0;
    assert(texts(out@) =~= texts_under(all.take(0), name@));
    while i < list.len()
        invariant
            i <= list.len(),
            all == trees(list@),
            texts(out@) == texts_under(all.take(i as int), name@),
        decreases list.len() - i,
    {
        let ghost t = all.take(i as int + 1);
        assert(t.drop_last() =~= all.take(i as int));
        assert(t.last() == list@[i as int].tree());
        if let Some(s) = list[i].text_at(name) {
            push_text(&mut out, s);
        }
        i = i + 1;
    }
    assert(all.take(all.len() as int) =~= all);
    out
}

/// A step of the instructions.
fn read_step(j: &Json) -> (r: String)
    ensures
        r@ == step_of(j.tree()),
{
    if let Some(s) = j.text() {
        return trim(s).to_owned();
    }
    if let Some(s) = j.text_at("text") {
        return trim(s).to_owned();
    }
    match j.list_at("itemListElement") {
        Some(steps) => {
            let raw: Vec<String> = all_texts_under(steps, "text");
            join(&filled_texts(&raw), " ")
        },
        None => {
            let r: String = String::new();
            assert(r@ =~= Seq::empty());
            r
        },
    }
}

/// The instructions of a recipe.
pub fn extract_instructions(val: &Json) -> (r: Vec<String>)
    ensures
        texts(r@) == instructions_of(val.tree()),
{
    let inst: &Json = match val.get("recipeInstructions") {
        Some(inst) => inst,
        None => {
            let r: Vec<String> = Vec::new();
            assert(texts(r@) =~= Seq::empty());
            return r;
        },
    };
    if let Some(s) = inst.text() {
        let lines: Vec<String> = split_at_char(s, '\n');
        return filled_texts(&lines);
    }
    let mut out: Vec<String> = Vec::new();
    assert(texts(out@) =~= Seq::empty());
    if let Some(list) = inst.list() {
        let ghost all = trees(list@);
        let mut i: usize = 0;
        assert(texts(out@) =~= steps_of(all.take(0)));
        while i < list.len()
            invariant
                i <= list.len(),
                all == trees(list@),
                texts(out@) == steps_of(all.take(i as int)),
            decreases list.len() - i,
        {
            let ghost t = all.take(i as int + 1);
            assert(t.drop_last() =~= all.take(i as int));
            assert(t.last() == list@[i as int].tree());
            let step: String = read_step(&list[i]);
            if step.as_str().unicode_len() > 0 {
                push_text(&mut out, step.as_str());
            }
            i = i + 1;
        }
        assert(all.take(all.len() as int) =~= all);
    }
    out
}

/// The number in front of a letter in a duration.
fn read_amount(s: &str, letter: &str) -> (r: u32)
    ensures
        r == amount(s@, letter@),
{
    let i: usize = find_first_of(s, letter);
    if i < s.unicode_len() {
        match parse_u32(text::head_to(s, i), 10) {
            Some(n) => n,
            None => 0,
        }
    } else {
        0
    }
}

/// What stands behind a letter in a duration.
fn read_behind<'a>(s: &'a str, letter: &str) -> (r: &'a str)
    ensures
        r@ == behind(s@, letter@),
{
    let i: usize = find_first_of(s, letter);
    if i < s.unicode_len() {
        tail_from(s, i + 1)
    } else {
        s
    }
}

/// A duration such as `PT1H30M` in words: `1 hr 30 min`.
pub fn parse_iso_duration(dur: &str) -> (r: String)
    ensures
        r@ == duration_words(dur@),
{
    let i: usize = find_first_of(dur, "T");
    if i == dur.unicode_len() {
        return dur.to_owned();
    }
    let time: &str = tail_from(dur, i + 1);
    let hours: u32 = read_amount(time, "H");
    let mins: u32 = read_amount(read_behind(time, "H"), "M");
    if hours == 0 && mins == 0 {
        return dur.to_owned();
    }
    let mut out: String = String::new();
    assert(out@ =~= Seq::empty());
    if hours == 0 {
        text::push_decimal(&mut out, mins as u64);
        out.append(" min");
    } else if mins == 0 {
        text::push_decimal(&mut out, hours as u64);
        out.append(" hr");
    } else {
        text::push_decimal(&mut out, hours as u64);
        out.append(" hr ");
        text::push_decimal(&mut out, mins as u64);
        out.append(" min");
    }
    assert(out@ =~= duration_words(dur@));
    out
}

/// The yield of a recipe.
fn read_servings(val: &Json) -> (r: Option<String>)
    ensures
        opt(r) == servings_of(val.tree()),
{
    let v: &Json = match val.get("recipeYield") {
        Some(v) => v,
        None => {
            return None;
        },
    };
    if let Some(s) = v.text() {
        return Some(trim(s).to_owned());
    }
    if let Some(n) = v.unsigned() {
        return Some(text::decimal_text(n));
    }
    if let Some(list) = v.list() {
        if list.len() > 0 {
            assert(trees(list@)[0] == list@[0].tree());
            if let Some(s) = list[0].text() {
                return Some(trim(s).to_owned());
            }
        }
    }
    None
}

/// The text with this name, copied.
fn copied_text_at(val: &Json, name: &str) -> (r: Option<String>)
    ensures
        opt(r) == val.tree().text_at(name@),
{
    match val.text_at(name) {
        Some(s) => Some(s.to_owned()),
        None => None,
    }
}

/// The picture of a recipe.
fn read_image(val: &Json) -> (r: Option<String>)
    ensures
        opt(r) == image_of(val.tree()),
{
    let v: &Json = match val.get("image") {
        Some(v) => v,
        None => {
            return None;
        },
    };
    if let Some(s) = v.text() {
        return Some(s.to_owned());
    }
    if let Some(list) = v.list() {
        if list.len() == 0 {
            return None;
        }
        assert(trees(list@)[0] == list@[0].tree());
        if let Some(s) = list[0].text() {
            return Some(s.to_owned());
        }
        return copied_text_at(&list[0], "url");
    }
    copied_text_at(v, "url")
}

/// The duration under a name, in words.
fn read_duration(val: &Json, name: &str) -> (r: Option<String>)
    ensures
        opt(r) == duration_at(val.tree(), name@),
{
    match val.text_at(name) {
        Some(s) => Some(parse_iso_duration(s)),
        None => None,
    }
}

/// The duration under a name or, where that is missing, under another.
fn read_either(val: &Json, name: &str, instead: &str) -> (r: Option<String>)
    ensures
        opt(r) == either(duration_at(val.tree(), name@), duration_at(val.tree(), instead@)),
{
    match read_duration(val, name) {
        Some(s) => Some(s),
        None => read_duration(val, instead),
    }
}

/// Whether a tree says that it is a recipe.
fn says_recipe(val: &Json) -> (r: bool)
    ensures
        r == (type_of(val.tree()) is Some && ascii_lowered(type_of(val.tree()).unwrap())
            == ascii_lowered("Recipe"@)),
{
    let t: &Json = match val.get("@type") {
        Some(t) => t,
        None => {
            return false;
        },
    };
    if let Some(s) = t.text() {
        return same_ignoring_case(s, "Recipe");
    }
    if let Some(list) = t.list() {
        if let Some(s) = find_text(list) {
            return same_ignoring_case(s, "Recipe");
        }
    }
    false
}

/// The recipe that a tree is, where it is one.
pub fn extract_recipe_object(val: &Json) -> (r: Option<RecipeCard>)
    ensures
        match r {
            Some(card) => recipe_of(val.tree()) == Some(card@),
            None => recipe_of(val.tree()) is None,
        },
{
    if !says_recipe(val) {
        return None;
    }
    let name: String = match val.text_at("name") {
        Some(s) => trim(s).to_owned(),
        None => String::new(),
    };
    assert(name@ =~= name_of(val.tree()));
    let ingredients: Vec<String> = match val.list_at("recipeIngredient") {
        Some(list) => {
            let raw: Vec<String> = all_texts(list);
            filled_texts(&raw)
        },
        None => Vec::new(),
    };
    assert(texts(ingredients@) =~= ingredients_of(val.tree()));
    let instructions: Vec<String> = extract_instructions(val);
    assert(texts(ingredients@).len() == ingredients@.len());
    assert(texts(instructions@).len() == instructions@.len());
    if name.as_str().unicode_len() == 0 && ingredients.len() == 0 && instructions.len() == 0 {
        return None;
    }
    let card = RecipeCard {
        name,
        ingredients,
        instructions,
        prep_time: read_either(val, "prepTime", "totalTime"),
        cook_time: read_either(val, "cookTime", "totalTime"),
        servings: read_servings(val),
        image_url: read_image(val),
    };
    assert(card@ =~= recipe_of(val.tree()).unwrap());
    Some(card)
}

/// The first recipe of a list of trees.
fn find_in_list(list: &Vec<Json>) -> (r: Option<RecipeCard>)
    ensures
        match r {
            Some(card) => first_recipe(trees(list@)) == Some(card@),
            None => first_recipe(trees(list@)) is None,
        },
{
    let ghost all = trees(list@);
    let mut i: usize = 0;
    assert(all.skip(0) =~= all);
    while i < list.len()
        invariant
            i <= list.len(),
            all == trees(list@),
            first_recipe(all) == first_recipe(all.skip(i as int)),
        decreases list.len() - i,
    {
        assert(all.skip(i as int)[0] == list@[i as int].tree());
        assert(all.skip(i as int).drop_first() =~= all.skip(i as int + 1));
        if let Some(card) = extract_recipe_object(&list[i]) {
            return Some(card);
        }
        i = i + 1;
    }
    None
}

/// The recipe of a document.
pub fn find_recipe(val: &Json) -> (r: Option<RecipeCard>)
    ensures
        match r {
            Some(card) => recipe_in(val.tree()) == Some(card@),
            None => recipe_in(val.tree()) is None,
        },
{
    if let Some(list) = val.list() {
        return find_in_list(list);
    }
    if let Some(list) = val.list_at("@graph") {
        return find_in_list(list);
    }
    extract_recipe_object(val)
}

/// The recipe of the first of several JSON texts that holds one.
pub open spec fn recipe_among(docs: Seq<Seq<char>>) -> Option<Recipe>
    decreases docs.len(),
{
    if docs.len() == 0 {
        None
    } else {
        let found = match parsed_json(docs[0]) {
            Some(t) => recipe_in(t),
            None => None,
        };
        match found {
            Some(r) => Some(r),
            None => recipe_among(docs.drop_first()),
        }
    }
}

/// The recipe of the first of several JSON texts that holds one. Texts that are no JSON are
/// passed over.
pub fn first_recipe_of(docs: &Vec<String>) -> (r: Option<RecipeCard>)
    ensures
        match r {
            Some(card) => recipe_among(texts(docs@)) == Some(card@),
            None => recipe_among(texts(docs@)) is None,
        },
{
    let ghost all = texts(docs@);
    let mut i: usize = 0;
    assert(all.skip(0) =~= all);
    while i < docs.len()
        invariant
            i <= docs.len(),
            all == texts(docs@),
            recipe_among(all) == recipe_among(all.skip(i as int)),
        decreases docs.len() - i,
    {
        assert(all.skip(i as int)[0] == docs@[i as int]@);
        assert(all.skip(i as int).drop_first() =~= all.skip(i as int + 1));
        if let Some(val) = parse_json(docs[i].as_str()) {
            if let Some(card) = find_recipe(&val) {
                return Some(card);
            }
        }
        i = i + 1;
    }
    None
}

/// The recipe in the structured data of a page: the first of what its JSON scripts hold.
pub fn extract_recipe_schema(html: &str) -> (r: Option<RecipeCard>)
    ensures
        match r {
            Some(card) => recipe_among(scripts_of(html@)) == Some(card@),
            None => recipe_among(scripts_of(html@)) is None,
        },
{
    let found: Vec<Vec<String>> = select_texts(html, r#"script[type="application/ld+json"]"#);
    let docs: Vec<String> = join_each(&found);
    first_recipe_of(&docs)
}

/// Words that make a title look like that of a recipe.
pub open spec fn title_keywords() -> Seq<Seq<char>> {
    seq![
        "recipe"@,
        "recipes"@,
        "how to make"@,
        "how to cook"@,
        "how to bake"@,
        "baking"@,
        "homemade"@,
        "from scratch"@,
        "no-knead"@,
        "easy dough"@,
        "pizza dough"@,
        "bread dough"@,
    ]
}

/// Words of which two make a text look like that of a recipe.
pub open spec fn body_keywords() -> Seq<Seq<char>> {
    seq![
        "ingredient"@,
        "ingredients"@,
        "directions"@,
        "instructions"@,
        "prep time"@,
        "cook time"@,
        "cooking time"@,
        "preheat"@,
        "tablespoon"@,
        "teaspoon"@,
        "recipe"@,
        "serves"@,
        "makes"@,
        "flour"@,
        "butter"@,
        "cups of"@,
        "grams"@,
        "ounces"@,
    ]
}

/// How many of a list of words stand in a text.
pub open spec fn hits(list: Seq<Seq<char>>, s: Seq<char>) -> nat
    decreases list.len(),
{
    if list.len() == 0 {
        0
    } else {
        hits(list.drop_last(), s) + if contains_text(s, list.last()) {
            1nat
        } else {
            0
        }
    }
}

/// How many of a list of words stand in a text.
fn count_hits(list: &Vec<String>, s: &str) -> (r: usize)
    ensures
        r == hits(texts(list@), s@),
{
    let ghost all = texts(list@);
    let mut n: usize = 0;
    let mut i: usize = 0;
    while i < list.len()
        invariant
            i <= list.len(),
            all == texts(list@),
            n <= i,
            n == hits(all.take(i as int), s@),
        decreases list.len() - i,
    {
        let ghost t = all.take(i as int + 1);
        assert(t.drop_last() =~= all.take(i as int));
        assert(t.last() == list@[i as int]@);
        if contains(s, list[i].as_str()) {
            n = n + 1;
        }
        i = i + 1;
    }
    assert(all.take(all.len() as int) =~= all);
    n
}

/// The words that make a title look like that of a recipe.
fn title_words() -> (r: Vec<String>)
    ensures
        texts(r@) == title_keywords(),
{
    let mut r: Vec<String> = Vec::new();
    assert(texts(r@) =~= seq![]);
    push_text(&mut r, "recipe");
    push_text(&mut r, "recipes");
    push_text(&mut r, "how to make");
    push_text(&mut r, "how to cook");
    push_text(&mut r, "how to bake");
    push_text(&mut r, "baking");
    push_text(&mut r, "homemade");
    push_text(&mut r, "from scratch");
    push_text(&mut r, "no-knead");
    push_text(&mut r, "easy dough");
    push_text(&mut r, "pizza dough");
    push_text(&mut r, "bread dough");
    assert(texts(r@) =~= title_keywords());
    r
}

/// The words of which two make a text look like that of a recipe.
fn body_words() -> (r: Vec<String>)
    ensures
        texts(r@) == body_keywords(),
{
    let mut r: Vec<String> = Vec::new();
    assert(texts(r@) =~= seq![]);
    push_text(&mut r, "ingredient");
    push_text(&mut r, "ingredients");
    push_text(&mut r, "directions");
    push_text(&mut r, "instructions");
    push_text(&mut r, "prep time");
    push_text(&mut r, "cook time");
    push_text(&mut r, "cooking time");
    push_text(&mut r, "preheat");
    push_text(&mut r, "tablespoon");
    push_text(&mut r, "teaspoon");
    push_text(&mut r, "recipe");
    push_text(&mut r, "serves");
    push_text(&mut r, "makes");
    push_text(&mut r, "flour");
    push_text(&mut r, "butter");
    push_text(&mut r, "cups of");
    push_text(&mut r, "grams");
    push_text(&mut r, "ounces");
    assert(texts(r@) =~= body_keywords());
    r
}

/// A page looks like it holds a recipe: its title has one of the words for titles, or its text
/// has two of the words for texts, in whatever case.
pub open spec fn recipe_like(title: Seq<char>, body: Seq<char>) -> bool {
    hits(title_keywords(), lowercase_of(title)) >= 1 || hits(body_keywords(), lowercase_of(body)) >= 2
}

/// Whether the words of a page make it look like it holds a recipe.
pub fn looks_like_recipe(title: &str, body: &str) -> (r: bool)
    ensures
        r == recipe_like(title@, body@),
{
    let lower_title: String = title.to_lowercase();
    if count_hits(&title_words(), lower_title.as_str()) >= 1 {
        return true;
    }
    let lower_body: String = body.to_lowercase();
    count_hits(&body_words(), lower_body.as_str()) >= 2
}

/// The first bytes of a text, at most 4000.
pub open spec fn preview(body: Seq<char>) -> Seq<char> {
    let bytes = encode_utf8(body);
    decode_utf8(bytes.subrange(0, preview_len(body)))
}

/// How many bytes of a text are shown.
pub open spec fn preview_len(body: Seq<char>) -> int {
    let n = encode_utf8(body).len() as int;
    if n < 4000 {
        n
    } else {
        4000
    }
}

/// The prompt that asks for the recipe of a page.
pub open spec fn recipe_prompt(title: Seq<char>, shown: Seq<char>) -> Seq<char> {
    r#"Extract the recipe from this web page.

Page title: "#@ + title + r#"

Page text:
"#@ + shown
        + r#"

If this page contains a recipe, return ONLY a JSON object (no other text) with this exact structure:
{
  "name": "Recipe Name",
  "ingredients": ["2 cups flour", "1 tsp salt"],
  "instructions": ["Step 1 text", "Step 2 text"],
  "prep_time": "15 min",
  "cook_time": "30 min",
  "servings": "4 servings",
  "image_url": null
}

If this page does not contain a recipe, return only the word: null"#@
}

/// The prompt that asks for the recipe of a page. The text is cut at 4000 bytes, where a
/// character has to begin.
pub fn recipe_extract_prompt(title: &str, body: &str) -> (r: String)
    requires
        is_char_boundary(encode_utf8(body@), preview_len(body@)),
    ensures
        r@ == recipe_prompt(title@, preview(body@)),
{
    let len: usize = text::byte_len(body);
    let cut: usize = if len < 4000 {
        len
    } else {
        4000
    };
    let shown: &str = body.split_at(cut).0;
    proof {
        vstd::utf8::encode_utf8_decode_utf8(shown@);
        assert(shown@ == preview(body@));
    }
    let mut out: String = r#"Extract the recipe from this web page.

Page title: "#.to_owned();
    out.append(title);
    out.append(r#"

Page text:
"#);
    out.append(shown);
    out.append(
        r#"

If this page contains a recipe, return ONLY a JSON object (no other text) with this exact structure:
{
  "name": "Recipe Name",
  "ingredients": ["2 cups flour", "1 tsp salt"],
  "instructions": ["Step 1 text", "Step 2 text"],
  "prep_time": "15 min",
  "cook_time": "30 min",
  "servings": "4 servings",
  "image_url": null
}

If this page does not contain a recipe, return only the word: null"#,
    );
    out
}

/// The part of an answer that may hold a recipe as JSON: from its first opening brace to its
/// last closing one. None where the answer is empty, says `null`, or has no such part.
pub open spec fn json_part(response: Seq<char>) -> Option<Seq<char>> {
    let s = trimmed(response);
    let start = first_of(s, "{"@);
    let end = text::last_at(s, '}');
    if s.len() == 0 || ascii_lowered(s) == ascii_lowered("null"@) || start == s.len() || end <= start {
        None
    } else {
        Some(s.subrange(start, end + 1))
    }
}

/// The part of an answer that may hold a recipe as JSON.
pub fn llm_recipe_json(response: &str) -> (r: Option<String>)
    ensures
        opt(r) == json_part(response@),
{
    let s: &str = trim(response);
    let n: usize = s.unicode_len();
    if n == 0 || same_ignoring_case(s, "null") {
        return None;
    }
    let start: usize = find_first_of(s, "{");
    if start == n {
        return None;
    }
    proof {
        text::lemma_last_at(s@, '}');
    }
    match text::find_last(s, '}') {
        Some(end) => {
            if end <= start {
                return None;
            }
            Some(s.substring_char(start, end + 1).to_owned())
        },
        None => None,
    }
}

/// The host in an `http` or `https` URL: what stands before the path, the query and the fragment,
/// without its port.
pub open spec fn web_host(url: Seq<char>) -> Option<Seq<char>> {
    let rest = if has_prefix(url, "https://"@) {
        Some(url.skip("https://"@.len() as int))
    } else if has_prefix(url, "http://"@) {
        Some(url.skip("http://"@.len() as int))
    } else {
        None
    };
    match rest {
        Some(rest) => Some(without_port(rest.take(first_of(rest, "/?#"@)))),
        None => None,
    }
}

/// The host in an `http` or `https` URL, without its port.
pub fn url_host<'a>(url: &'a str) -> (r: Option<&'a str>)
    ensures
        match r {
            Some(h) => web_host(url@) == Some(h@),
            None => web_host(url@) is None,
        },
{
    let rest: &'a str = match strip_prefix(url, "https://") {
        Some(rest) => rest,
        None => match strip_prefix(url, "http://") {
            Some(rest) => rest,
            None => {
                return None;
            },
        },
    };
    Some(strip_port(before_first(rest, "/?#")))
}

/// A recipe card that is made of a tree is never blank: it has a name, ingredients or
/// instructions, and none of its ingredients and steps is empty.
pub proof fn law_recipes_are_not_blank(t: Tree)
    ensures
        recipe_of(t) matches Some(r) ==> {
            &&& r.name.len() > 0 || r.ingredients.len() > 0 || r.instructions.len() > 0
            &&& forall|i: int| 0 <= i < r.ingredients.len() ==> (#[trigger] r.ingredients[i]).len() > 0
            &&& forall|i: int| 0 <= i < r.instructions.len() ==> (#[trigger] r.instructions[i]).len() > 0
        },
{
    if let Some(list) = t.list_at("recipeIngredient"@) {
        lemma_filled(texts_in(list));
    }
    if let Some(Tree::Text(s)) = t.get("recipeInstructions"@) {
        lemma_filled(split(s, '\n'));
    }
    if let Some(Tree::List(list)) = t.get("recipeInstructions"@) {
        lemma_steps_filled(list);
    }
}

proof fn lemma_filled(list: Seq<Seq<char>>)
    ensures
        forall|i: int| 0 <= i < filled(list).len() ==> (#[trigger] filled(list)[i]).len() > 0,
    decreases list.len(),
{
    if list.len() > 0 {
        lemma_filled(list.drop_last());
        let before = filled(list.drop_last());
        assert forall|i: int| 0 <= i < filled(list).len() implies (#[trigger] filled(list)[i]).len()
            > 0 by {
            if i < before.len() {
                assert(filled(list)[i] == before[i]);
            }
        }
    }
}

proof fn lemma_steps_filled(list: Seq<Tree>)
    ensures
        forall|i: int| 0 <= i < steps_of(list).len() ==> (#[trigger] steps_of(list)[i]).len() > 0,
    decreases list.len(),
{
    if list.len() > 0 {
        lemma_steps_filled(list.drop_last());
        let before = steps_of(list.drop_last());
        assert forall|i: int| 0 <= i < steps_of(list).len() implies (#[trigger] steps_of(
            list,
        )[i]).len() > 0 by {
            if i < before.len() {
                assert(steps_of(list)[i] == before[i]);
            }
        }
    }
}

/// The host of a web page is the one that bans and icons go by.
pub proof fn law_hosts_agree(url: Seq<char>)
    ensures
        web_host(url) matches Some(host) ==> host == host_of(url),
        web_host(url) is Some <==> has_prefix(url, "https://"@) || has_prefix(url, "http://"@),
{
}

/// The trimmed texts of a list that are not blank are kept, in their order.
pub proof fn law_filled_texts_are_kept(list: Seq<Seq<char>>)
    ensures
        picked(
            list.len(),
            filled(list),
            |i: int| trimmed(list[i]).len() > 0,
            |i: int| trimmed(list[i]),
        ),
    decreases list.len(),
{
    let chosen = |i: int| trimmed(list[i]).len() > 0;
    let gives = |i: int| trimmed(list[i]);
    if list.len() == 0 {
        lemma_picked_none(chosen, gives);
    } else {
        let init = list.drop_last();
        law_filled_texts_are_kept(init);
        lemma_picked_one_more(
            init.len(),
            filled(init),
            |i: int| trimmed(init[i]).len() > 0,
            |i: int| trimmed(init[i]),
            filled(list),
            chosen,
            gives,
        );
    }
}

/// Of a list, all texts are taken, and of its dictionaries all texts under a name, in their order.
pub proof fn law_every_text_of_a_list_is_taken(list: Seq<Tree>, name: Seq<char>)
    ensures
        picked(
            list.len(),
            texts_in(list),
            |i: int| list[i] is Text,
            |i: int| list[i]->Text_0,
        ),
        picked(
            list.len(),
            texts_under(list, name),
            |i: int| list[i].text_at(name) is Some,
            |i: int| list[i].text_at(name)->0,
        ),
        picked(
            list.len(),
            steps_of(list),
            |i: int| step_of(list[i]).len() > 0,
            |i: int| step_of(list[i]),
        ),
    decreases list.len(),
{
    if list.len() == 0 {
        lemma_picked_none(|i: int| list[i] is Text, |i: int| list[i]->Text_0);
        lemma_picked_none(
            |i: int| list[i].text_at(name) is Some,
            |i: int| list[i].text_at(name)->0,
        );
        lemma_picked_none(|i: int| step_of(list[i]).len() > 0, |i: int| step_of(list[i]));
    } else {
        let init = list.drop_last();
        law_every_text_of_a_list_is_taken(init, name);
        lemma_picked_one_more(
            init.len(),
            texts_in(init),
            |i: int| init[i] is Text,
            |i: int| init[i]->Text_0,
            texts_in(list),
            |i: int| list[i] is Text,
            |i: int| list[i]->Text_0,
        );
        lemma_picked_one_more(
            init.len(),
            texts_under(init, name),
            |i: int| init[i].text_at(name) is Some,
            |i: int| init[i].text_at(name)->0,
            texts_under(list, name),
            |i: int| list[i].text_at(name) is Some,
            |i: int| list[i].text_at(name)->0,
        );
        lemma_picked_one_more(
            init.len(),
            steps_of(init),
            |i: int| step_of(init[i]).len() > 0,
            |i: int| step_of(init[i]),
            steps_of(list),
            |i: int| step_of(list[i]).len() > 0,
            |i: int| step_of(list[i]),
        );
    }
}

/// A recipe has the name, the ingredients and the steps of its dictionary, its times, or the whole
/// time where it has none of its own, its yield and its picture. A dictionary of another type is
/// no recipe, nor is one with no name, no ingredients and no steps.
pub proof fn law_a_recipe_is_taken_whole(t: Tree)
    ensures
        ({
            let is_recipe = type_of(t) is Some && ascii_lowered(type_of(t)->0) == ascii_lowered(
                "Recipe"@,
            );
            let full = name_of(t).len() > 0 || ingredients_of(t).len() > 0 || instructions_of(t).len()
                > 0;
            &&& recipe_of(t) is Some <==> is_recipe && full
            &&& recipe_of(t) matches Some(r) ==> {
                &&& t.text_at("name"@) matches Some(s) ==> r.name == trimmed(s)
                &&& t.list_at("recipeIngredient"@) matches Some(l) ==> r.ingredients == filled(
                    texts_in(l),
                )
                &&& t.get("recipeInstructions"@) matches Some(Tree::List(l)) ==> r.instructions
                    == steps_of(l)
                &&& t.get("recipeInstructions"@) matches Some(Tree::Text(s)) ==> r.instructions
                    == filled(split(s, '\n'))
                &&& t.text_at("prepTime"@) matches Some(d) ==> r.prep_time == Some(duration_words(d))
                &&& t.text_at("cookTime"@) matches Some(d) ==> r.cook_time == Some(duration_words(d))
                &&& t.text_at("prepTime"@) is None ==> r.prep_time == duration_at(t, "totalTime"@)
                &&& t.text_at("cookTime"@) is None ==> r.cook_time == duration_at(t, "totalTime"@)
                &&& t.get("recipeYield"@) matches Some(Tree::Text(s)) ==> r.servings == Some(
                    trimmed(s),
                )
                &&& t.get("recipeYield"@) matches Some(Tree::Unsigned(n)) ==> r.servings == Some(
                    decimal(n as nat),
                )
                &&& t.get("image"@) matches Some(Tree::Text(s)) ==> r.image_url == Some(s)
            }
        }),
{
}

/// The recipe of several dictionaries is that of the first that is one.
pub proof fn law_the_first_recipe_counts(list: Seq<Tree>)
    ensures
        match first_recipe(list) {
            Some(r) => exists|i: int|
                0 <= i < list.len() && recipe_of(#[trigger] list[i]) == Some(r) && forall|k: int|
                    0 <= k < i ==> recipe_of(#[trigger] list[k]) is None,
            None => forall|i: int| 0 <= i < list.len() ==> recipe_of(#[trigger] list[i]) is None,
        },
    decreases list.len(),
{
    if list.len() > 0 {
        if recipe_of(list[0]) is Some {
        } else {
            let rest = list.drop_first();
            law_the_first_recipe_counts(rest);
            match first_recipe(rest) {
                Some(r) => {
                    let i = choose|i: int|
                        0 <= i < rest.len() && recipe_of(#[trigger] rest[i]) == Some(r) && forall|
                            k: int,
                        | 0 <= k < i ==> recipe_of(#[trigger] rest[k]) is None;
                    assert(recipe_of(list[i + 1]) == Some(r));
                    assert forall|k: int| 0 <= k < i + 1 implies recipe_of(#[trigger] list[k]) is None by {
                        if k > 0 {
                            assert(recipe_of(rest[k - 1]) is None);
                        }
                    }
                },
                None => {
                    assert forall|i: int| 0 <= i < list.len() implies recipe_of(
                        #[trigger] list[i],
                    ) is None by {
                        if i > 0 {
                            assert(recipe_of(rest[i - 1]) is None);
                        }
                    }
                },
            }
        }
    }
}

/// The recipe of a script, where it holds one.
pub open spec fn script_recipe(doc: Seq<char>) -> Option<Recipe> {
    if parsed_json(doc) is Some {
        recipe_in(parsed_json(doc)->0)
    } else {
        None
    }
}

/// The recipe of a page is that of the first of its scripts that holds one.
pub proof fn law_the_first_script_with_a_recipe_counts(docs: Seq<Seq<char>>)
    ensures
        match recipe_among(docs) {
            Some(r) => exists|i: int|
                0 <= i < docs.len() && script_recipe(#[trigger] docs[i]) == Some(r) && forall|k: int|
                    0 <= k < i ==> script_recipe(#[trigger] docs[k]) is None,
            None => forall|i: int| 0 <= i < docs.len() ==> script_recipe(#[trigger] docs[i]) is None,
        },
    decreases docs.len(),
{
    if docs.len() > 0 {
        if script_recipe(docs[0]) is Some {
        } else {
            let rest = docs.drop_first();
            law_the_first_script_with_a_recipe_counts(rest);
            match recipe_among(rest) {
                Some(r) => {
                    let i = choose|i: int|
                        0 <= i < rest.len() && script_recipe(#[trigger] rest[i]) == Some(r)
                            && forall|k: int|
                            0 <= k < i ==> script_recipe(#[trigger] rest[k]) is None;
                    assert(script_recipe(docs[i + 1]) == Some(r));
                    assert forall|k: int| 0 <= k < i + 1 implies script_recipe(
                        #[trigger] docs[k],
                    ) is None by {
                        if k > 0 {
                            assert(script_recipe(rest[k - 1]) is None);
                        }
                    }
                },
                None => {
                    assert forall|i: int| 0 <= i < docs.len() implies script_recipe(
                        #[trigger] docs[i],
                    ) is None by {
                        if i > 0 {
                            assert(script_recipe(rest[i - 1]) is None);
                        }
                    }
                },
            }
        }
    }
}

/// As many words of a list stand in a text as there are places of the list whose word does.
pub proof fn law_hits_are_counted(list: Seq<Seq<char>>, s: Seq<char>)
    ensures
        hits(list, s) == list.filter(|w: Seq<char>| contains_text(s, w)).len(),
    decreases list.len(),
{
    reveal(Seq::filter);
    if list.len() > 0 {
        law_hits_are_counted(list.drop_last(), s);
    }
}

/// A page looks like a recipe where its title has one of these words, or its text has two of the
/// others.
pub proof fn law_what_looks_like_a_recipe(title: Seq<char>, body: Seq<char>)
    ensures
        recipe_like(title, body) <==> hits(
            seq![
                "recipe"@,
                "recipes"@,
                "how to make"@,
                "how to cook"@,
                "how to bake"@,
                "baking"@,
                "homemade"@,
                "from scratch"@,
                "no-knead"@,
                "easy dough"@,
                "pizza dough"@,
                "bread dough"@,
            ],
            lowercase_of(title),
        ) >= 1 || hits(
            seq![
                "ingredient"@,
                "ingredients"@,
                "directions"@,
                "instructions"@,
                "prep time"@,
                "cook time"@,
                "cooking time"@,
                "preheat"@,
                "tablespoon"@,
                "teaspoon"@,
                "recipe"@,
                "serves"@,
                "makes"@,
                "flour"@,
                "butter"@,
                "cups of"@,
                "grams"@,
                "ounces"@,
            ],
            lowercase_of(body),
        ) >= 2,
{
    assert(title_keywords() =~= seq![
        "recipe"@,
        "recipes"@,
        "how to make"@,
        "how to cook"@,
        "how to bake"@,
        "baking"@,
        "homemade"@,
        "from scratch"@,
        "no-knead"@,
        "easy dough"@,
        "pizza dough"@,
        "bread dough"@,
    ]);
    assert(body_keywords() =~= seq![
        "ingredient"@,
        "ingredients"@,
        "directions"@,
        "instructions"@,
        "prep time"@,
        "cook time"@,
        "cooking time"@,
        "preheat"@,
        "tablespoon"@,
        "teaspoon"@,
        "recipe"@,
        "serves"@,
        "makes"@,
        "flour"@,
        "butter"@,
        "cups of"@,
        "grams"@,
        "ounces"@,
    ]);
}

/// A text is a part in braces, with no opening brace before it and no closing one behind it.
pub open spec fn is_outer_part(
    a: Seq<char>,
    part: Seq<char>,
    b: Seq<char>,
    s: Seq<char>,
) -> bool {
    &&& a + part + b == s
    &&& part.len() > 1
    &&& part[0] == '{'
    &&& part.last() == '}'
    &&& !a.contains('{')
    &&& !b.contains('}')
}

/// A text has this part in braces, from its first opening brace to its last closing one.
pub open spec fn has_outer_part(s: Seq<char>, part: Seq<char>) -> bool {
    exists|a: Seq<char>, b: Seq<char>| #[trigger] is_outer_part(a, part, b, s)
}

/// A reply says that there is nothing, in whatever case.
pub open spec fn says_none(s: Seq<char>) -> bool {
    ascii_lowered(s) == ascii_lowered("null"@)
}

/// A text has no opening brace with a closing one behind it.
pub open spec fn lacks_part(s: Seq<char>) -> bool {
    forall|i: int, j: int|
        0 <= i < j < s.len() && #[trigger] s[i] == '{' ==> #[trigger] s[j] != '}'
}

/// What is taken of a reply of the model reaches from its first opening brace to its last closing
/// one, and nothing is taken where there is no such part or the reply says that there is none.
pub proof fn law_the_object_in_a_reply(response: Seq<char>)
    ensures
        json_part(response) is Some ==> has_outer_part(trimmed(response), json_part(response)->0),
        json_part(response) is None ==> says_none(trimmed(response)) || lacks_part(
            trimmed(response),
        ),
{
    let s = trimmed(response);
    reveal_strlit("{");
    assert("{"@ =~= seq!['{']);
    let start = first_of(s, "{"@);
    let end = text::last_at(s, '}');
    text::lemma_first_of(s, "{"@);
    text::lemma_last_at(s, '}');
    assert("{"@.contains('{')) by {
        assert("{"@[0] == '{');
    }
    if json_part(response) is Some {
        let part = s.subrange(start, end + 1);
        let a = s.take(start);
        let b = s.skip(end + 1);
        assert(a + part + b =~= s);
        assert("{"@.contains(s[start]));
        assert(!a.contains('{')) by {
            if a.contains('{') {
                let k = choose|k: int| 0 <= k < a.len() && a[k] == '{';
                assert(s[k] == '{');
            }
        }
        assert(!b.contains('}')) by {
            if b.contains('}') {
                let k = choose|k: int| 0 <= k < b.len() && b[k] == '}';
                assert(s[end + 1 + k] == '}');
            }
        }
        assert(part[0] == '{' && part.last() == '}');
        assert(json_part(response) == Some(part));
        assert(is_outer_part(a, part, b, trimmed(response)));
    } else if !says_none(s) {
        assert forall|i: int, j: int| 0 <= i < j < s.len() && #[trigger] s[i] == '{' implies
            #[trigger] s[j] != '}' by {
            if start > i {
                assert(!"{"@.contains(s[i]));
            }
            if s[j] == '}' {
                assert(j <= end);
            }
        }
    }
}

} // verus!
