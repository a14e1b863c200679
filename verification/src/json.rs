//! Trees of values, as JSON documents and property lists hold them.

use vstd::prelude::*;
use vstd::string::*;

use crate::text::same_text;

verus! {

/// A tree of values.
pub enum Json {
    Null,
    Bool(bool),
    /// A number that is a natural one below 2^64.
    Unsigned(u64),
    /// Any other number, as it is written.
    Number(String),
    Text(String),
    List(Vec<Json>),
    /// Names and values. Of several entries with the same name the first counts.
    Object(Vec<(String, Json)>),
}

/// What a tree stands for.
pub enum Tree {
    Null,
    Bool(bool),
    Unsigned(u64),
    Number(Seq<char>),
    Text(Seq<char>),
    List(Seq<Tree>),
    Object(Seq<(Seq<char>, Tree)>),
}

impl Json {
    /// What a tree stands for.
    pub open spec fn tree(self) -> Tree
        decreases self,
    {
        match self {
            Json::Null => Tree::Null,
            Json::Bool(b) => Tree::Bool(b),
            Json::Unsigned(n) => Tree::Unsigned(n),
            Json::Number(s) => Tree::Number(s@),
            Json::Text(s) => Tree::Text(s@),
            Json::List(v) => Tree::List(
                Seq::new(
                    v@.len(),
                    |i: int|
                        if 0 <= i < v@.len() {
                            v@[i].tree()
                        } else {
                            Tree::Null
                        },
                ),
            ),
            Json::Object(v) => Tree::Object(
                Seq::new(
                    v@.len(),
                    |i: int|
                        if 0 <= i < v@.len() {
                            (v@[i].0@, v@[i].1.tree())
                        } else {
                            (Seq::empty(), Tree::Null)
                        },
                ),
            ),
        }
    }
}

/// What the trees of a list stand for.
pub open spec fn trees(list: Seq<Json>) -> Seq<Tree> {
    Seq::new(list.len(), |i: int| list[i].tree())
}

/// What the entries of an object stand for.
pub open spec fn entries(list: Seq<(String, Json)>) -> Seq<(Seq<char>, Tree)> {
    Seq::new(list.len(), |i: int| (list[i].0@, list[i].1.tree()))
}

/// The value of the first entry with this name.
pub open spec fn field(list: Seq<(Seq<char>, Tree)>, name: Seq<char>) -> Option<Tree>
    decreases list.len(),
{
    if list.len() == 0 {
        None
    } else if list[0].0 == name {
        Some(list[0].1)
    } else {
        field(list.drop_first(), name)
    }
}

impl Tree {
    /// An object without entries.
    pub open spec fn empty() -> Tree {
        Tree::Object(Seq::empty())
    }

    /// The object with one more entry at its end; anything else stays as it is.
    pub open spec fn with(self, name: Seq<char>, value: Tree) -> Tree {
        match self {
            Tree::Object(list) => Tree::Object(list.push((name, value))),
            other => other,
        }
    }

    /// The value with this name, where there is one.
    pub open spec fn get(self, name: Seq<char>) -> Option<Tree> {
        match self {
            Tree::Object(list) => field(list, name),
            _ => None,
        }
    }

    /// The text, where it is one.
    pub open spec fn as_text(self) -> Option<Seq<char>> {
        match self {
            Tree::Text(s) => Some(s),
            _ => None,
        }
    }

    /// The list, where it is one.
    pub open spec fn as_list(self) -> Option<Seq<Tree>> {
        match self {
            Tree::List(s) => Some(s),
            _ => None,
        }
    }

    /// The natural number, where it is one.
    pub open spec fn as_unsigned(self) -> Option<u64> {
        match self {
            Tree::Unsigned(n) => Some(n),
            _ => None,
        }
    }

    /// The text with this name, where there is one.
    pub open spec fn text_at(self, name: Seq<char>) -> Option<Seq<char>> {
        match self.get(name) {
            Some(t) => t.as_text(),
            None => None,
        }
    }

    /// The list with this name, where there is one.
    pub open spec fn list_at(self, name: Seq<char>) -> Option<Seq<Tree>> {
        match self.get(name) {
            Some(t) => t.as_list(),
            None => None,
        }
    }
}

/// A list stands for the list of what its trees stand for, and an object for its entries.
pub proof fn lemma_tree(j: Json)
    ensures
        j matches Json::List(v) ==> j.tree() == Tree::List(trees(v@)),
        j matches Json::Object(v) ==> j.tree() == Tree::Object(entries(v@)),
{
    if let Json::List(v) = j {
        assert(j.tree()->List_0 =~= trees(v@));
    }
    if let Json::Object(v) = j {
        assert(j.tree()->Object_0 =~= entries(v@));
    }
}

impl Json {
    /// The value with this name, where there is one.
    pub fn get<'a>(&'a self, name: &str) -> (r: Option<&'a Json>)
        ensures
            match r {
                Some(j) => self.tree().get(name@) == Some(j.tree()),
                None => self.tree().get(name@) is None,
            },
            r matches Some(j) ==> decreases_to!(self => j),
    {
        proof {
            lemma_tree(*self);
        }
        match self {
            Json::Object(v) => {
                let ghost all = entries(v@);
                let mut i: usize = 0;
                assert(all.skip(0) =~= all);
                while i < v.len()
                    invariant
                        i <= v.len(),
                        all == entries(v@),
                        *self == Json::Object(*v),
                        self.tree() == Tree::Object(all),
                        field(all, name@) == field(all.skip(i as int), name@),
                    decreases v.len() - i,
                {
                    let ghost rest = all.skip(i as int);
                    assert(rest[0] == (v@[i as int].0@, v@[i as int].1.tree()));
                    if same_text(v[i].0.as_str(), name) {
                        return Some(&v[i].1);
                    }
                    assert(rest.drop_first() =~= all.skip(i as int + 1));
                    i = i + 1;
                }
                None
            },
            _ => None,
        }
    }

    /// The text, where it is one.
    pub fn text<'a>(&'a self) -> (r: Option<&'a str>)
        ensures
            match r {
                Some(s) => self.tree().as_text() == Some(s@),
                None => self.tree().as_text() is None,
            },
    {
        match self {
            Json::Text(s) => Some(s.as_str()),
            _ => None,
        }
    }

    /// The list, where it is one.
    pub fn list<'a>(&'a self) -> (r: Option<&'a Vec<Json>>)
        ensures
            match r {
                Some(v) => self.tree().as_list() == Some(trees(v@)) && *self == Json::List(*v),
                None => self.tree().as_list() is None,
            },
    {
        proof {
            lemma_tree(*self);
        }
        match self {
            Json::List(v) => Some(v),
            _ => None,
        }
    }

    /// The natural number, where it is one.
    pub fn unsigned(&self) -> (r: Option<u64>)
        ensures
            r == self.tree().as_unsigned(),
    {
        match self {
            Json::Unsigned(n) => Some(*n),
            _ => None,
        }
    }

    /// The text with this name, where there is one.
    pub fn text_at<'a>(&'a self, name: &str) -> (r: Option<&'a str>)
        ensures
            match r {
                Some(s) => self.tree().text_at(name@) == Some(s@),
                None => self.tree().text_at(name@) is None,
            },
    {
        match self.get(name) {
            Some(j) => j.text(),
            None => None,
        }
    }

    /// The list with this name, where there is one.
    pub fn list_at<'a>(&'a self, name: &str) -> (r: Option<&'a Vec<Json>>)
        ensures
            match r {
                Some(v) => self.tree().list_at(name@) == Some(trees(v@)),
                None => self.tree().list_at(name@) is None,
            },
    {
        match self.get(name) {
            Some(j) => j.list(),
            None => None,
        }
    }

    /// A copy.
    #[verifier::loop_isolation(false)]
    pub fn duplicate(&self) -> (r: Json)
        ensures
            r.tree() == self.tree(),
        decreases self,
    {
        match self {
            Json::Null => Json::Null,
            Json::Bool(b) => Json::Bool(*b),
            Json::Unsigned(n) => Json::Unsigned(*n),
            Json::Number(s) => Json::Number(s.clone()),
            Json::Text(s) => Json::Text(s.clone()),
            Json::List(v) => {
                let mut out: Vec<Json> = Vec::new();
                let mut i: usize = 0;
                while i < v.len()
                    invariant
                        i <= v.len(),
                        *self == Json::List(*v),
                        out@.len() == i,
                        forall|k: int| 0 <= k < i ==> (#[trigger] out@[k]).tree() == v@[k].tree(),
                    decreases v.len() - i,
                {
                    assert(decreases_to!(*v => v@[i as int]));
                    let j: Json = v[i].duplicate();
                    out.push(j);
                    i = i + 1;
                }
                let r = Json::List(out);
                proof {
                    lemma_tree(*self);
                    lemma_tree(r);
                    assert(trees(out@) =~= trees(v@));
                }
                r
            },
            Json::Object(v) => {
                let mut out: Vec<(String, Json)> = Vec::new();
                let mut i: usize = 0;
                while i < v.len()
                    invariant
                        i <= v.len(),
                        *self == Json::Object(*v),
                        out@.len() == i,
                        forall|k: int|
                            0 <= k < i ==> (#[trigger] out@[k]).0@ == v@[k].0@ && out@[k].1.tree()
                                == v@[k].1.tree(),
                    decreases v.len() - i,
                {
                    assert(decreases_to!(*v => v@[i as int]));
                    let j: Json = v[i].1.duplicate();
                    out.push((v[i].0.clone(), j));
                    i = i + 1;
                }
                let r = Json::Object(out);
                proof {
                    lemma_tree(*self);
                    lemma_tree(r);
                    assert(entries(out@) =~= entries(v@));
                }
                r
            },
        }
    }

    /// A text.
    pub fn of(s: &str) -> (r: Json)
        ensures
            r.tree() == Tree::Text(s@),
    {
        Json::Text(s.to_owned())
    }

    /// A list of trees.
    pub fn list_of(v: Vec<Json>) -> (r: Json)
        ensures
            r.tree() == Tree::List(trees(v@)),
    {
        let r = Json::List(v);
        proof {
            lemma_tree(r);
        }
        r
    }

    /// A list of one.
    pub fn only(j: Json) -> (r: Json)
        ensures
            r.tree() == Tree::List(seq![j.tree()]),
    {
        let v: Vec<Json> = vec![j];
        let r = Json::List(v);
        proof {
            lemma_tree(r);
            assert(trees(v@) =~= seq![j.tree()]);
        }
        r
    }

    /// An object without entries.
    pub fn empty() -> (r: Json)
        ensures
            r.tree() == Tree::empty(),
    {
        let r = Json::Object(Vec::new());
        proof {
            lemma_tree(r);
            assert(r.tree()->Object_0 =~= Seq::empty());
        }
        r
    }

    /// The object with one more entry at its end; anything else stays as it is.
    pub fn with(self, name: &str, value: Json) -> (r: Json)
        ensures
            r.tree() == self.tree().with(name@, value.tree()),
    {
        proof {
            lemma_tree(self);
        }
        match self {
            Json::Object(mut v) => {
                let ghost before = v@;
                v.push((name.to_owned(), value));
                let r = Json::Object(v);
                proof {
                    lemma_tree(r);
                    assert(entries(v@) =~= entries(before).push((name@, value.tree())));
                }
                r
            },
            other => other,
        }
    }
}

/// A document as `serde_json` holds it.
#[verifier::external_type_specification]
#[verifier::external_body]
pub struct ExValue(serde_json::Value);

/// The tree that a `serde_json::Value` holds.
pub uninterp spec fn held(v: serde_json::Value) -> Tree;

/// The tree that a text stands for as JSON, and none where it is no JSON.
pub uninterp spec fn parsed_json(s: Seq<char>) -> Option<Tree>;

/// Reads a JSON text.
///
/// Calls `serde_json::from_str`. Claimed: whether there is a document, and the tree that it
/// holds, depend on the text alone.
#[verifier::external_body]
fn parse_value(s: &str) -> (r: Option<serde_json::Value>)
    ensures
        match r {
            Some(v) => parsed_json(s@) == Some(held(v)),
            None => parsed_json(s@) is None,
        },
{
    serde_json::from_str::<serde_json::Value>(s).ok()
}

/// Takes a document apart.
///
/// Matches on the variants of `serde_json::Value`, and calls `serde_json::Number::as_u64` to
/// tell natural numbers from others. Claimed: the result stands for the tree that the document
/// holds.
#[verifier::external_body]
fn unpacked(v: serde_json::Value) -> (r: Json)
    ensures
        r.tree() == held(v),
{
    match v {
        serde_json::Value::Null => Json::Null,
        serde_json::Value::Bool(b) => Json::Bool(b),
        serde_json::Value::Number(n) => match n.as_u64() {
            Some(u) => Json::Unsigned(u),
            None => Json::Number(n.to_string()),
        },
        serde_json::Value::String(s) => Json::Text(s),
        serde_json::Value::Array(a) => Json::List(a.into_iter().map(unpacked).collect()),
        serde_json::Value::Object(o) => Json::Object(o.into_iter().map(|(k, v)| (k, unpacked(v))).collect()),
    }
}

/// Reads a JSON text.
pub fn parse_json(s: &str) -> (r: Option<Json>)
    ensures
        match r {
            Some(j) => parsed_json(s@) == Some(j.tree()),
            None => parsed_json(s@) is None,
        },
{
    match parse_value(s) {
        Some(v) => Some(unpacked(v)),
        None => None,
    }
}

impl Tree {
    /// The value with this name, and nothing where there is none.
    pub open spec fn at(self, name: Seq<char>) -> Tree {
        match self.get(name) {
            Some(t) => t,
            None => Tree::Null,
        }
    }

    /// The first entry of a list, and nothing where there is none.
    pub open spec fn head(self) -> Tree {
        match self {
            Tree::List(list) => if list.len() > 0 {
                list[0]
            } else {
                Tree::Null
            },
            _ => Tree::Null,
        }
    }

    /// The text with this name, or another where there is none.
    pub open spec fn text_or(self, name: Seq<char>, other: Seq<char>) -> Seq<char> {
        match self.text_at(name) {
            Some(s) => s,
            None => other,
        }
    }

    /// The list with this name, and an empty one where there is none.
    pub open spec fn list_or_empty(self, name: Seq<char>) -> Seq<Tree> {
        match self.list_at(name) {
            Some(s) => s,
            None => Seq::empty(),
        }
    }
}

/// An object with the value of a name set: in place of the one it has, or at its end.
pub open spec fn with_field(
    list: Seq<(Seq<char>, Tree)>,
    name: Seq<char>,
    value: Tree,
) -> Seq<(Seq<char>, Tree)>
    decreases list.len(),
{
    if list.len() == 0 {
        seq![(name, value)]
    } else if list[0].0 == name {
        seq![(name, value)] + list.drop_first()
    } else {
        seq![list[0]] + with_field(list.drop_first(), name, value)
    }
}

/// An object with the values of another put over its own.
pub open spec fn overlaid(
    list: Seq<(Seq<char>, Tree)>,
    over: Seq<(Seq<char>, Tree)>,
) -> Seq<(Seq<char>, Tree)>
    decreases over.len(),
{
    if over.len() == 0 {
        list
    } else {
        with_field(overlaid(list, over.drop_last()), over.last().0, over.last().1)
    }
}

/// Setting a name gives it that value and leaves the values of all other names.
pub proof fn law_setting_a_field(list: Seq<(Seq<char>, Tree)>, name: Seq<char>, value: Tree)
    ensures
        field(with_field(list, name, value), name) == Some(value),
        forall|other: Seq<char>|
            other != name ==> #[trigger] field(with_field(list, name, value), other) == field(
                list,
                other,
            ),
    decreases list.len(),
{
    let now = with_field(list, name, value);
    if list.len() > 0 && list[0].0 != name {
        law_setting_a_field(list.drop_first(), name, value);
        assert(now.drop_first() =~= with_field(list.drop_first(), name, value));
        assert(now[0] == list[0]);
    } else {
        assert(now[0] == (name, value));
    }
    assert forall|other: Seq<char>| other != name implies #[trigger] field(now, other) == field(
        list,
        other,
    ) by {
        if list.len() == 0 {
            assert(now.drop_first() =~= Seq::empty());
            assert(field(now.drop_first(), other) is None);
        } else if list[0].0 == name {
            assert(now.drop_first() =~= list.drop_first());
        } else {
            assert(field(with_field(list.drop_first(), name, value), other) == field(
                list.drop_first(),
                other,
            ));
        }
    }
}

/// Sets the value of a name in the entries of an object.
fn set_field(list: &mut Vec<(String, Json)>, name: &str, value: Json)
    ensures
        entries(final(list)@) == with_field(entries(old(list)@), name@, value.tree()),
{
    let ghost all = entries(list@);
    let mut i: usize = 0;
    assert(all.skip(0) =~= all);
    assert(all.take(0) + with_field(all.skip(0), name@, value.tree()) =~= with_field(
        all,
        name@,
        value.tree(),
    ));
    while i < list.len()
        invariant
            i <= list.len(),
            *list == *old(list),
            all == entries(list@),
            all.take(i as int) + with_field(all.skip(i as int), name@, value.tree())
                == with_field(all, name@, value.tree()),
        decreases list.len() - i,
    {
        let ghost rest = all.skip(i as int);
        assert(rest[0] == (list@[i as int].0@, list@[i as int].1.tree()));
        if same_text(list[i].0.as_str(), name) {
            let ghost before = list@;
            list[i] = (name.to_owned(), value);
            assert(entries(list@) =~= all.take(i as int) + (seq![(name@, value.tree())]
                + rest.drop_first()));
            return;
        }
        assert(rest.drop_first() =~= all.skip(i as int + 1));
        assert(all.take(i as int) + (seq![rest[0]] + with_field(
            rest.drop_first(),
            name@,
            value.tree(),
        )) =~= all.take(i as int + 1) + with_field(
            all.skip(i as int + 1),
            name@,
            value.tree(),
        ));
        i = i + 1;
    }
    let ghost before = list@;
    assert(all.skip(i as int) =~= Seq::empty());
    list.push((name.to_owned(), value));
    assert(entries(list@) =~= all.take(i as int) + seq![(name@, value.tree())]);
}

impl Json {
    /// Puts the entries of an object over those of another; anything but two objects leaves
    /// the tree as it is.
    pub fn overlay(self, over: &Json) -> (r: Json)
        ensures
            r.tree() == match (self.tree(), over.tree()) {
                (Tree::Object(list), Tree::Object(more)) => Tree::Object(overlaid(list, more)),
                _ => self.tree(),
            },
    {
        proof {
            lemma_tree(self);
            lemma_tree(*over);
        }
        match (self, over) {
            (Json::Object(mut list), Json::Object(more)) => {
                let ghost base = entries(list@);
                let ghost all = entries(more@);
                let mut i: usize = 0;
                assert(overlaid(base, all.take(0)) =~= base);
                while i < more.len()
                    invariant
                        i <= more.len(),
                        all == entries(more@),
                        entries(list@) == overlaid(base, all.take(i as int)),
                    decreases more.len() - i,
                {
                    let ghost t = all.take(i as int + 1);
                    assert(t.drop_last() =~= all.take(i as int));
                    assert(t.last() == (more@[i as int].0@, more@[i as int].1.tree()));
                    let value: Json = more[i].1.duplicate();
                    set_field(&mut list, more[i].0.as_str(), value);
                    i = i + 1;
                }
                assert(all.take(all.len() as int) =~= all);
                let r = Json::Object(list);
                proof {
                    lemma_tree(r);
                }
                r
            },
            (other, _) => other,
        }
    }

    /// The value with this name, copied, and nothing where there is none.
    pub fn copy_at(&self, name: &str) -> (r: Json)
        ensures
            r.tree() == self.tree().at(name@),
    {
        match self.get(name) {
            Some(j) => j.duplicate(),
            None => Json::Null,
        }
    }

    /// The text with this name, or another where there is none.
    pub fn text_or<'a>(&'a self, name: &str, other: &'a str) -> (r: &'a str)
        ensures
            r@ == self.tree().text_or(name@, other@),
    {
        match self.text_at(name) {
            Some(s) => s,
            None => other,
        }
    }

    /// A list of two.
    pub fn pair(a: Json, b: Json) -> (r: Json)
        ensures
            r.tree() == Tree::List(seq![a.tree(), b.tree()]),
    {
        let v: Vec<Json> = vec![a, b];
        let r = Json::List(v);
        proof {
            lemma_tree(r);
            assert(trees(v@) =~= seq![a.tree(), b.tree()]);
        }
        r
    }
}

/// Copies a list of trees.
pub fn duplicates(list: &Vec<Json>) -> (r: Vec<Json>)
    ensures
        trees(r@) == trees(list@),
{
    let mut out: Vec<Json> = Vec::new();
    let mut i: usize = 0;
    while i < list.len()
        invariant
            i <= list.len(),
            out@.len() == i,
            forall|k: int| 0 <= k < i ==> (#[trigger] out@[k]).tree() == list@[k].tree(),
        decreases list.len() - i,
    {
        let j: Json = list[i].duplicate();
        out.push(j);
        i = i + 1;
    }
    assert(trees(out@) =~= trees(list@));
    out
}

/// Where one object is put over another, the values of the one on top count, the last of each
/// name, and the others show through.
pub proof fn law_the_object_on_top_counts(
    list: Seq<(Seq<char>, Tree)>,
    over: Seq<(Seq<char>, Tree)>,
    name: Seq<char>,
)
    ensures
        (forall|i: int| 0 <= i < over.len() ==> (#[trigger] over[i]).0 != name) ==> field(
            overlaid(list, over),
            name,
        ) == field(list, name),
        forall|i: int|
            0 <= i < over.len() && (#[trigger] over[i]).0 == name && (forall|k: int|
                i < k < over.len() ==> (#[trigger] over[k]).0 != name) ==> field(
                overlaid(list, over),
                name,
            ) == Some(over[i].1),
    decreases over.len(),
{
    if over.len() > 0 {
        let init = over.drop_last();
        let n = over.len() - 1;
        law_the_object_on_top_counts(list, init, name);
        law_setting_a_field(overlaid(list, init), over.last().0, over.last().1);
        if forall|i: int| 0 <= i < over.len() ==> (#[trigger] over[i]).0 != name {
            assert(over[n].0 != name);
            assert forall|i: int| 0 <= i < init.len() implies (#[trigger] init[i]).0 != name by {
                assert(over[i].0 != name);
            }
        }
        assert forall|i: int|
            0 <= i < over.len() && (#[trigger] over[i]).0 == name && (forall|k: int|
                i < k < over.len() ==> (#[trigger] over[k]).0 != name) implies field(
            overlaid(list, over),
            name,
        ) == Some(over[i].1) by {
            if i < n {
                assert(over[n].0 != name);
                assert(init[i] == over[i]);
                assert forall|k: int| i < k < init.len() implies (#[trigger] init[k]).0 != name by {
                    assert(over[k].0 != name);
                }
            }
        }
    }
}

} // verus!
