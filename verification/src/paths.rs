//! Putting paths together as the standard library does on each platform.

use vstd::prelude::*;
use vstd::string::*;

use crate::lists::push_text;
use crate::text::{
    chars_of, find_first_of, first_of, has_prefix, head_to, join, joined, replace, replaced,
    same_text, split, split_at_char, starts_with, tail_from, texts,
};

verus! {

/// The system that the program runs on.
#[derive(Debug, Clone, Copy, PartialEq, Eq, Structural)]
pub enum Platform {
    Macos,
    Linux,
    Windows,
    Other,
}

/// A character that separates the parts of a path on Windows.
pub open spec fn is_separator(c: char) -> bool {
    c == '/' || c == '\\'
}

/// A character that separates the parts of a path on Windows.
fn separator(c: char) -> (r: bool)
    ensures
        r == is_separator(c),
{
    c == '/' || c == '\\'
}

/// A path begins with a drive of Windows, such as `C:`.
pub open spec fn has_drive(s: Seq<char>) -> bool {
    s.len() >= 2 && s[1] == ':' && ('a' <= s[0] <= 'z' || 'A' <= s[0] <= 'Z')
}

/// Whether a path begins with a drive of Windows.
fn begins_with_drive(s: &str) -> (r: bool)
    ensures
        r == has_drive(s@),
{
    let v: Vec<char> = chars_of(s);
    v.len() >= 2 && v[1] == ':' && (('a' <= v[0] && v[0] <= 'z') || ('A' <= v[0] && v[0] <= 'Z'))
}

/// A path of Windows is verbatim: it begins with `\\?\`.
pub open spec fn is_verbatim(s: Seq<char>) -> bool {
    has_prefix(s, "\\\\?\\"@)
}

/// A path begins with two separators.
pub open spec fn has_two_separators(s: Seq<char>) -> bool {
    s.len() >= 2 && is_separator(s[0]) && is_separator(s[1])
}

/// A path begins with `\\.\`, the mark of a device, with separators of either kind.
pub open spec fn has_device_mark(s: Seq<char>) -> bool {
    has_two_separators(s) && s.len() >= 4 && s[2] == '.' && is_separator(s[3])
}

/// What stands behind the first part of a text and the separator that ends it.
pub open spec fn behind_part(s: Seq<char>, separators: Seq<char>) -> Seq<char> {
    let n = first_of(s, separators);
    if n < s.len() {
        s.skip(n + 1)
    } else {
        Seq::empty()
    }
}

/// How many characters a server and a share take, with a separator in between where there is a
/// share.
pub open spec fn share_len(s: Seq<char>, separators: Seq<char>) -> int {
    let share = first_of(behind_part(s, separators), separators);
    first_of(s, separators) + if share > 0 {
        1 + share
    } else {
        0
    }
}

/// How many characters the prefix of a path takes on Windows; none where it has no prefix. A
/// prefix is a drive, a server with a share, a device, or the first part of a verbatim path.
pub open spec fn prefix_len(s: Seq<char>) -> Option<int> {
    if is_verbatim(s) {
        let rest = s.skip(4);
        if has_prefix(rest, "UNC\\"@) {
            Some(8 + share_len(s.skip(8), "\\"@))
        } else if has_drive(rest) && (rest.len() == 2 || is_separator(rest[2])) {
            Some(6)
        } else {
            Some(4 + first_of(rest, "\\"@))
        }
    } else if has_device_mark(s) {
        Some(4 + first_of(s.skip(4), "/\\"@))
    } else if has_two_separators(s) {
        let rest = s.skip(2);
        if first_of(rest, "/\\"@) > 0 && first_of(behind_part(rest, "/\\"@), "/\\"@) > 0 {
            Some(2 + share_len(rest, "/\\"@))
        } else {
            None
        }
    } else if has_drive(s) {
        Some(2)
    } else {
        None
    }
}

/// A path begins with a separator.
pub open spec fn is_rooted(s: Seq<char>) -> bool {
    s.len() > 0 && is_separator(s[0])
}

/// The entries of a list that are not empty.
pub open spec fn nonempty(list: Seq<Seq<char>>) -> Seq<Seq<char>>
    decreases list.len(),
{
    if list.len() == 0 {
        Seq::empty()
    } else if list.last().len() == 0 {
        nonempty(list.drop_last())
    } else {
        nonempty(list.drop_last()).push(list.last())
    }
}

/// Where a walk from one place leads: a dot stays, two dots go back one named step, and any other
/// step is added.
pub open spec fn walked(from: Seq<Seq<char>>, steps: Seq<Seq<char>>) -> Seq<Seq<char>>
    decreases steps.len(),
{
    if steps.len() == 0 {
        from
    } else {
        let here = walked(from, steps.drop_last());
        let step = steps.last();
        if step == "."@ {
            here
        } else if step == ".."@ {
            if here.len() > 0 && here.last() != "."@ && here.last() != ".."@ {
                here.drop_last()
            } else {
                here
            }
        } else {
            here.push(step)
        }
    }
}

/// What stands behind the prefix of a path.
pub open spec fn behind_prefix(s: Seq<char>) -> Seq<char> {
    match prefix_len(s) {
        Some(n) => s.skip(n),
        None => s,
    }
}

/// The prefix of a path.
pub open spec fn prefix_of(s: Seq<char>) -> Seq<char> {
    match prefix_len(s) {
        Some(n) => s.take(n),
        None => Seq::empty(),
    }
}

/// The named parts of a path that is separated by backslashes.
pub open spec fn parts_of(s: Seq<char>) -> Seq<Seq<char>> {
    nonempty(split(s, '\\'))
}

/// A path put behind a verbatim directory: the parts of both, without the steps that stay or go
/// back.
pub open spec fn verbatim_joined(dir: Seq<char>, path: Seq<char>) -> Seq<char> {
    let tail = behind_prefix(dir);
    let steps = parts_of(replaced(path, '/', "\\"@));
    let from = if is_rooted(path) {
        Seq::empty()
    } else if is_rooted(tail) {
        parts_of(tail.skip(1))
    } else {
        parts_of(tail)
    };
    let parts = walked(from, steps);
    if parts.len() > 0 {
        prefix_of(dir) + "\\"@ + joined(parts, "\\"@)
    } else if is_rooted(path) || is_rooted(tail) {
        prefix_of(dir) + "\\"@
    } else {
        prefix_of(dir)
    }
}

/// A path put behind a directory on Windows: one with a prefix stands for itself, and one that
/// begins with a separator keeps the prefix of the directory. A backslash is put in between
/// unless the directory is empty, ends with a separator, or is a bare drive.
pub open spec fn windows_joined(dir: Seq<char>, path: Seq<char>) -> Seq<char> {
    if prefix_len(path) is Some {
        path
    } else if is_verbatim(dir) && path.len() > 0 {
        verbatim_joined(dir, path)
    } else if is_rooted(path) {
        prefix_of(dir) + path
    } else if dir.len() == 0 || is_separator(dir.last()) || (dir.len() == 2 && has_drive(dir)) {
        dir + path
    } else {
        dir + "\\"@ + path
    }
}

/// A path put behind a directory. But on Windows an absolute path stands for itself, and a slash
/// is put in between unless the directory is empty or ends with one.
pub open spec fn path_joined(platform: Platform, dir: Seq<char>, path: Seq<char>) -> Seq<char> {
    if platform == Platform::Windows {
        windows_joined(dir, path)
    } else if path.len() > 0 && path[0] == '/' {
        path
    } else if dir.len() == 0 || dir.last() == '/' {
        dir + path
    } else {
        dir + "/"@ + path
    }
}

/// What stands behind the first part of a text and the separator that ends it.
fn find_behind_part<'a>(s: &'a str, separators: &str) -> (r: &'a str)
    ensures
        r@ == behind_part(s@, separators@),
{
    let n: usize = find_first_of(s, separators);
    let len: usize = s.unicode_len();
    if n < len {
        tail_from(s, n + 1)
    } else {
        assert(s@.skip(len as int) =~= Seq::empty());
        tail_from(s, len)
    }
}

/// How many characters a server and a share take.
fn find_share_len(s: &str, separators: &str) -> (r: usize)
    ensures
        r == share_len(s@, separators@),
        r <= s@.len(),
{
    let n: usize = find_first_of(s, separators);
    let share: usize = find_first_of(find_behind_part(s, separators), separators);
    let len: usize = s.unicode_len();
    if share > 0 {
        assert(n + 1 + share <= len);
        n + 1 + share
    } else {
        n
    }
}

/// How many characters the prefix of a path takes on Windows.
fn find_prefix_len(s: &str) -> (r: Option<usize>)
    ensures
        match r {
            Some(n) => prefix_len(s@) == Some(n as int) && n <= s@.len(),
            None => prefix_len(s@) is None,
        },
{
    let v: Vec<char> = chars_of(s);
    let len: usize = v.len();
    if starts_with(s, "\\\\?\\") {
        proof {
            reveal_strlit("\\\\?\\");
            reveal_strlit("UNC\\");
        }
        let rest: &str = tail_from(s, 4);
        if starts_with(rest, "UNC\\") {
            return Some(8 + find_share_len(tail_from(s, 8), "\\"));
        }
        if begins_with_drive(rest) && (len == 6 || separator(v[6])) {
            return Some(6);
        }
        return Some(4 + find_first_of(rest, "\\"));
    }
    if len >= 2 && separator(v[0]) && separator(v[1]) {
        if len >= 4 && v[2] == '.' && separator(v[3]) {
            return Some(4 + find_first_of(tail_from(s, 4), "/\\"));
        }
        let rest: &str = tail_from(s, 2);
        if find_first_of(rest, "/\\") > 0 && find_first_of(find_behind_part(rest, "/\\"), "/\\") > 0 {
            return Some(2 + find_share_len(rest, "/\\"));
        }
        return None;
    }
    if begins_with_drive(s) {
        return Some(2);
    }
    None
}

/// The named parts of a path that is separated by backslashes.
fn find_parts(s: &str) -> (r: Vec<String>)
    ensures
        texts(r@) == parts_of(s@),
{
    let list: Vec<String> = split_at_char(s, '\\');
    let ghost all = texts(list@);
    let mut out: Vec<String> = Vec::new();
    let mut i: usize = 0;
    assert(texts(out@) =~= nonempty(all.take(0)));
    while i < list.len()
        invariant
            i <= list@.len(),
            all == texts(list@),
            texts(out@) == nonempty(all.take(i as int)),
        decreases list@.len() - i,
    {
        let ghost t = all.take(i as int + 1);
        assert(t.drop_last() =~= all.take(i as int));
        assert(t.last() == list@[i as int]@);
        if list[i].as_str().unicode_len() > 0 {
            push_text(&mut out, list[i].as_str());
        }
        i = i + 1;
    }
    assert(all.take(all.len() as int) =~= all);
    out
}

/// Walks on from one place.
fn walk(from: Vec<String>, steps: &Vec<String>) -> (r: Vec<String>)
    ensures
        texts(r@) == walked(texts(from@), texts(steps@)),
{
    let ghost start = texts(from@);
    let ghost all = texts(steps@);
    let mut here: Vec<String> = from;
    let mut i: usize = 0;
    assert(all.take(0) =~= Seq::empty());
    while i < steps.len()
        invariant
            i <= steps@.len(),
            all == texts(steps@),
            texts(here@) == walked(start, all.take(i as int)),
        decreases steps@.len() - i,
    {
        let ghost t = all.take(i as int + 1);
        assert(t.drop_last() =~= all.take(i as int));
        assert(t.last() == steps@[i as int]@);
        let ghost before = here@;
        let step: &str = steps[i].as_str();
        if !same_text(step, ".") {
            if same_text(step, "..") {
                let n: usize = here.len();
                assert(texts(before).len() == before.len());
                if n > 0 {
                    assert(texts(before).last() == before[n - 1]@);
                    if !same_text(here[n - 1].as_str(), ".") && !same_text(
                        here[n - 1].as_str(),
                        "..",
                    ) {
                        here.pop();
                        assert(texts(here@) =~= texts(before).drop_last());
                    }
                }
            } else {
                push_text(&mut here, step);
            }
        }
        i = i + 1;
    }
    assert(all.take(all.len() as int) =~= all);
    here
}

/// Whether a path begins with a separator.
fn rooted(s: &str) -> (r: bool)
    ensures
        r == is_rooted(s@),
{
    let v: Vec<char> = chars_of(s);
    v.len() > 0 && separator(v[0])
}

/// Puts a path behind a verbatim directory.
fn join_verbatim(dir: &str, path: &str) -> (r: String)
    ensures
        r@ == verbatim_joined(dir@, path@),
{
    let n: usize = match find_prefix_len(dir) {
        Some(n) => n,
        None => 0,
    };
    let prefix: &str = head_to(dir, n);
    let tail: &str = tail_from(dir, n);
    proof {
        assert(prefix@ =~= prefix_of(dir@));
        assert(tail@ =~= behind_prefix(dir@));
    }
    let steps: Vec<String> = find_parts(replace(path, '/', "\\").as_str());
    let from: Vec<String> = if rooted(path) {
        let none: Vec<String> = Vec::new();
        assert(texts(none@) =~= Seq::empty());
        none
    } else if rooted(tail) {
        find_parts(tail_from(tail, 1))
    } else {
        find_parts(tail)
    };
    let parts: Vec<String> = walk(from, &steps);
    assert(texts(parts@).len() == parts@.len());
    let mut out: String = prefix.to_owned();
    if parts.len() > 0 {
        out.append("\\");
        out.append(join(&parts, "\\").as_str());
    } else if rooted(path) || rooted(tail) {
        out.append("\\");
    }
    out
}

/// Puts a path behind a directory on Windows.
fn join_windows(dir: &str, path: &str) -> (r: String)
    ensures
        r@ == windows_joined(dir@, path@),
{
    if find_prefix_len(path).is_some() {
        return path.to_owned();
    }
    if starts_with(dir, "\\\\?\\") && path.unicode_len() > 0 {
        return join_verbatim(dir, path);
    }
    if rooted(path) {
        let mut out: String = match find_prefix_len(dir) {
            Some(n) => head_to(dir, n).to_owned(),
            None => "".to_owned(),
        };
        proof {
            reveal_strlit("");
            assert(out@ =~= prefix_of(dir@));
        }
        out.append(path);
        return out;
    }
    let d: Vec<char> = chars_of(dir);
    let mut out: String = dir.to_owned();
    if d.len() > 0 && !separator(d[d.len() - 1]) && !(d.len() == 2 && begins_with_drive(dir)) {
        out.append("\\");
    }
    out.append(path);
    out
}

/// Puts a path behind a directory.
pub fn join_path(platform: Platform, dir: &str, path: &str) -> (r: String)
    ensures
        r@ == path_joined(platform, dir@, path@),
{
    if platform == Platform::Windows {
        return join_windows(dir, path);
    }
    let p: Vec<char> = chars_of(path);
    if p.len() > 0 && p[0] == '/' {
        return path.to_owned();
    }
    let d: Vec<char> = chars_of(dir);
    let mut out: String = dir.to_owned();
    if d.len() > 0 && d[d.len() - 1] != '/' {
        out.append("/");
    }
    out.append(path);
    out
}

/// A path behind a directory: one from the root stays as it is, any other stands behind the
/// directory with one separator between. Where a path has a drive or another prefix of its own,
/// Windows takes it as it is.
pub proof fn law_paths_behind_directories(
    platform: Platform,
    dir: Seq<char>,
    path: Seq<char>,
)
    ensures
        platform != Platform::Windows && path.len() > 0 && path[0] == '/' ==> path_joined(
            platform,
            dir,
            path,
        ) == path,
        platform != Platform::Windows && dir.len() > 0 && dir.last() != '/' && (path.len() == 0
            || path[0] != '/') ==> path_joined(platform, dir, path) == dir + seq!['/'] + path,
        platform != Platform::Windows && dir.len() > 0 && dir.last() == '/' && (path.len() == 0
            || path[0] != '/') ==> path_joined(platform, dir, path) == dir + path,
        prefix_len(path) is Some ==> path_joined(Platform::Windows, dir, path) == path,
        prefix_len(path) is None && !is_verbatim(dir) && !is_rooted(path) && dir.len() > 2
            && !is_separator(dir.last()) ==> path_joined(Platform::Windows, dir, path) == dir
            + seq!['\\'] + path,
{
    reveal_strlit("/");
    reveal_strlit("\\");
    assert("/"@ =~= seq!['/']);
    assert("\\"@ =~= seq!['\\']);
}

} // verus!
