//! What is done when the index is opened.

use vstd::prelude::*;
use vstd::string::*;

use crate::text::{same_text, texts};

verus! {

/// The files that a database has beside it.
pub open spec fn side_files(path: Seq<char>) -> Seq<Seq<char>> {
    seq![path + "-wal"@, path + "-shm"@]
}

/// The files that a database has beside it.
pub fn side_paths(path: &str) -> (r: Vec<String>)
    ensures
        texts(r@) == side_files(path@),
{
    let mut wal: String = path.to_owned();
    wal.append("-wal");
    let mut shm: String = path.to_owned();
    shm.append("-shm");
    let r: Vec<String> = vec![wal, shm];
    assert(texts(r@) =~= side_files(path@));
    r
}

/// The files that go before a database is opened: those beside one that is itself missing, which
/// would be replayed into the new one.
pub fn orphaned_files(path: &str, present: bool) -> (r: Vec<String>)
    ensures
        texts(r@) == if present {
            Seq::<Seq<char>>::empty()
        } else {
            side_files(path@)
        },
{
    if present {
        let r: Vec<String> = Vec::new();
        assert(texts(r@) =~= Seq::empty());
        r
    } else {
        side_paths(path)
    }
}

/// What is done about the full-text table of a database.
#[derive(Debug, Clone, Copy, PartialEq, Eq, Structural)]
pub enum TextTable {
    /// It stays.
    Keep,
    /// It keeps its text in another table: it is made anew from the fetched pages.
    Migrate,
}

/// What is done about the full-text table, by where it says that it keeps its text.
pub fn text_table(content_setting: &str) -> (r: TextTable)
    ensures
        r == if content_setting@.len() == 0 {
            TextTable::Keep
        } else {
            TextTable::Migrate
        },
{
    if content_setting.unicode_len() == 0 {
        TextTable::Keep
    } else {
        TextTable::Migrate
    }
}

/// Whether the full-text table is built anew, by the first issue that a check of the database
/// finds.
pub fn rebuilds(first_issue: &str) -> (r: bool)
    ensures
        r == (first_issue@ != "ok"@),
{
    !same_text(first_issue, "ok")
}

} // verus!
