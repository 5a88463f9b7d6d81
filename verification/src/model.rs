//! The records the index stores, and where a repository's index lives.

use chrono::{Datelike, Timelike};
use std::path::PathBuf;
use vstd::prelude::*;
use crate::text::{ascii_lower, chars_of, is_ascii_text, lower_case, str_eq, string_from_chars, to_lower};

verus! {

/// `std::path::PathBuf`, carried through unchanged.
#[verifier::external_type_specification]
#[verifier::external_body]
pub struct ExPathBuf(PathBuf);

/// A symbol (function, class, method, ...) found in a source file.
#[derive(Debug, Clone)]
pub struct Symbol {
    pub id: Option<i64>,
    pub repo: String,
    pub file: String,
    pub name: String,
    pub kind: String,
    pub start_byte: usize,
    pub end_byte: usize,
    pub signature: Option<String>,
    pub docstring: Option<String>,
    pub embedding: Option<Vec<u8>>,
}

/// The mathematical content of a [`Symbol`].
pub ghost struct SymbolView {
    pub id: Option<i64>,
    pub repo: Seq<char>,
    pub file: Seq<char>,
    pub name: Seq<char>,
    pub kind: Seq<char>,
    pub start_byte: usize,
    pub end_byte: usize,
    pub signature: Option<Seq<char>>,
    pub docstring: Option<Seq<char>>,
    pub embedding: Option<Seq<u8>>,
}

/// The view of an optional string.
pub open spec fn opt_view(s: Option<String>) -> Option<Seq<char>> {
    match s {
        Some(t) => Some(t@),
        None => None,
    }
}

impl View for Symbol {
    type V = SymbolView;

    open spec fn view(&self) -> SymbolView {
        SymbolView {
            id: self.id,
            repo: self.repo@,
            file: self.file@,
            name: self.name@,
            kind: self.kind@,
            start_byte: self.start_byte,
            end_byte: self.end_byte,
            signature: opt_view(self.signature),
            docstring: opt_view(self.docstring),
            embedding: match self.embedding {
                Some(e) => Some(e@),
                None => None,
            },
        }
    }
}

/// An HTTP route found in a source file.
#[derive(Debug)]
pub struct RouteInfo {
    pub id: Option<i64>,
    pub repo: String,
    pub file: String,
    pub method: String,
    pub path: String,
    pub handler: Option<String>,
    pub start_byte: usize,
    pub end_byte: usize,
}

/// The mathematical content of a [`RouteInfo`].
pub ghost struct RouteView {
    pub id: Option<i64>,
    pub repo: Seq<char>,
    pub file: Seq<char>,
    pub method: Seq<char>,
    pub path: Seq<char>,
    pub handler: Option<Seq<char>>,
    pub start_byte: usize,
    pub end_byte: usize,
}

impl View for RouteInfo {
    type V = RouteView;

    open spec fn view(&self) -> RouteView {
        RouteView {
            id: self.id,
            repo: self.repo@,
            file: self.file@,
            method: self.method@,
            path: self.path@,
            handler: opt_view(self.handler),
            start_byte: self.start_byte,
            end_byte: self.end_byte,
        }
    }
}

/// Where the index lives: a registry and one database per repository, all
/// under `base_dir`.
pub struct Storage {
    pub base_dir: PathBuf,
}

/// Whether a character separates the components of a path.
pub open spec fn is_separator(c: char) -> bool {
    c == '/' || c == '\\'
}

/// Whether no character of `s` separates path components.
pub open spec fn no_separator(s: Seq<char>) -> bool {
    forall|i: int| 0 <= i < s.len() ==> !is_separator(#[trigger] s[i])
}

/// A character as it may stand in a file name: a path separator becomes `_`.
pub open spec fn file_name_char(c: char) -> char {
    if is_separator(c) {
        '_'
    } else {
        c
    }
}

/// `s` with every path separator replaced by `_`.
pub open spec fn file_name_safe(s: Seq<char>) -> Seq<char> {
    s.map_values(|c: char| file_name_char(c))
}

/// The file name of a repository's database: its name in lower case with
/// path separators replaced by `_`, then `.db`. It holds no separator and
/// ends in `.db`, so it names a file right inside the storage directory.
pub open spec fn db_file_name_spec(repo_name: Seq<char>) -> Seq<char> {
    file_name_safe(lower_case(repo_name)) + ".db"@
}

/// Calls `PathBuf::clone`, which gives an equal path.
#[verifier::external_body]
fn clone_path(p: &PathBuf) -> (r: PathBuf)
    ensures
        r == *p,
{
    p.clone()
}

/// Where a repository's database lies: the file `file` in the directory `dir`.
pub struct DbPath {
    pub dir: PathBuf,
    pub file: String,
}

/// `s` with every path separator replaced by `_`.
fn file_name_safe_string(s: &str) -> (r: String)
    ensures
        r@ == file_name_safe(s@),
{
    let chars = chars_of(s);
    let mut out: Vec<char> = Vec::new();
    let mut i: usize = 0;
    while i < chars.len()
        invariant
            chars@ == s@,
            i <= chars@.len(),
            out@ == file_name_safe(s@).take(i as int),
        decreases chars@.len() - i,
    {
        let c = chars[i];
        if c == '/' || c == '\\' {
            out.push('_');
        } else {
            out.push(c);
        }
        assert(file_name_safe(s@).take(i + 1) =~= file_name_safe(s@).take(i as int).push(file_name_char(c)));
        i = i + 1;
    }
    assert(file_name_safe(s@).take(chars@.len() as int) =~= file_name_safe(s@));
    string_from_chars(out.as_slice())
}

/// The file name under which a repository's database is stored.
pub fn db_file_name(repo_name: &str) -> (r: String)
    ensures
        r@ == db_file_name_spec(repo_name@),
        is_ascii_text(repo_name@) ==> r@ == file_name_safe(ascii_lower(repo_name@)) + ".db"@,
{
    let lower = to_lower(repo_name);
    let mut name = file_name_safe_string(lower.as_str());
    name.append(".db");
    name
}

/// A database file name holds no path separator and ends in `.db`.
pub proof fn lemma_db_file_name_safe(repo_name: Seq<char>)
    ensures
        no_separator(db_file_name_spec(repo_name)),
        db_file_name_spec(repo_name).len() >= 3,
        db_file_name_spec(repo_name).subrange(
            db_file_name_spec(repo_name).len() - 3,
            db_file_name_spec(repo_name).len() as int,
        ) == ".db"@,
{
    reveal_strlit(".db");
    let x = file_name_safe(lower_case(repo_name));
    let f = db_file_name_spec(repo_name);
    assert forall|i: int| 0 <= i < f.len() implies !is_separator(#[trigger] f[i]) by {
        if i < x.len() {
            assert(f[i] == file_name_char(lower_case(repo_name)[i]));
        } else {
            assert(f[i] == ".db"@[i - x.len()]);
        }
    }
    assert(f.subrange(f.len() - 3, f.len() as int) =~= ".db"@);
}

/// The name under which the registry records a repository: its name in
/// lower case, so that lookups ignore letter case.
pub fn registry_key(repo_name: &str) -> (r: String)
    ensures
        r@ == lower_case(repo_name@),
{
    to_lower(repo_name)
}

/// Repository names that agree in lower case share one database file; and
/// names whose lower-case forms hold no path separator share one exactly
/// when they agree in lower case.
pub proof fn lemma_db_file_name_case(a: Seq<char>, b: Seq<char>)
    ensures
        lower_case(a) == lower_case(b) ==> db_file_name_spec(a) == db_file_name_spec(b),
        no_separator(lower_case(a)) && no_separator(lower_case(b)) ==> (db_file_name_spec(a)
            == db_file_name_spec(b) <==> lower_case(a) == lower_case(b)),
{
    let x = lower_case(a);
    let y = lower_case(b);
    if no_separator(x) && no_separator(y) {
        assert(file_name_safe(x) =~= x);
        assert(file_name_safe(y) =~= y);
        if db_file_name_spec(a) == db_file_name_spec(b) {
            assert((x + ".db"@).len() == (y + ".db"@).len());
            assert(x =~= (x + ".db"@).subrange(0, x.len() as int));
            assert(y =~= (y + ".db"@).subrange(0, y.len() as int));
        }
    }
}

/// For ASCII repository names without path separators, the database file
/// names agree exactly when the names agree in lower case (`to_lowercase`,
/// which on ASCII text maps `A`..`Z` to `a`..`z`).
pub proof fn lemma_db_file_name_ascii_case(a: Seq<char>, b: Seq<char>)
    requires
        is_ascii_text(a),
        is_ascii_text(b),
        no_separator(a),
        no_separator(b),
    ensures
        file_name_safe(ascii_lower(a)) + ".db"@ == file_name_safe(ascii_lower(b)) + ".db"@ <==> ascii_lower(a)
            == ascii_lower(b),
{
    let x = ascii_lower(a);
    let y = ascii_lower(b);
    assert(no_separator(x)) by {
        assert forall|i: int| 0 <= i < x.len() implies !is_separator(#[trigger] x[i]) by {
            assert(!is_separator(a[i]));
        }
    }
    assert(no_separator(y)) by {
        assert forall|i: int| 0 <= i < y.len() implies !is_separator(#[trigger] y[i]) by {
            assert(!is_separator(b[i]));
        }
    }
    assert(file_name_safe(x) =~= x);
    assert(file_name_safe(y) =~= y);
    if x + ".db"@ == y + ".db"@ {
        assert((x + ".db"@).len() == (y + ".db"@).len());
        assert(x =~= (x + ".db"@).subrange(0, x.len() as int));
        assert(y =~= (y + ".db"@).subrange(0, y.len() as int));
    }
}

impl Storage {
    /// The database path of a repository: the file [`db_file_name`] of its
    /// name in `base_dir`.
    pub fn get_db_path(&self, repo_name: &str) -> (r: DbPath)
        ensures
            r.dir == self.base_dir,
            r.file@ == db_file_name_spec(repo_name@),
            no_separator(r.file@),
            is_ascii_text(repo_name@) ==> r.file@ == file_name_safe(ascii_lower(repo_name@)) + ".db"@,
    {
        proof {
            lemma_db_file_name_safe(repo_name@);
        }
        DbPath { dir: clone_path(&self.base_dir), file: db_file_name(repo_name) }
    }
}

/// A calendar date and time of day, as `chrono` gives it (a leap second is
/// second 59 with at least a second's worth of nanoseconds).
#[derive(Clone, Copy, Debug, PartialEq, Eq)]
pub struct Timestamp {
    pub year: i32,
    pub month: u32,
    pub day: u32,
    pub hour: u32,
    pub minute: u32,
    pub second: u32,
    /// Nanoseconds into the second; from 1_000_000_000 on, a leap second.
    pub nanosecond: u32,
}

/// What `chrono` reads from `text` in the `strftime`-style `format`, if it
/// fits the format.
pub uninterp spec fn parsed_time(text: Seq<char>, format: Seq<char>) -> Option<Timestamp>;

/// Calls `chrono::NaiveDateTime::parse_from_str` and takes the calendar
/// fields of the result (`Datelike`, `Timelike`); the result is named by
/// [`parsed_time`] of the text and the format.
#[verifier::external_body]
fn parse_time(text: &str, format: &str) -> (r: Option<Timestamp>)
    ensures
        r == parsed_time(text@, format@),
{
    let t = chrono::NaiveDateTime::parse_from_str(text, format).ok()?;
    Some(Timestamp { year: t.year(), month: t.month(), day: t.day(), hour: t.hour(), minute: t.minute(), second: t.second(), nanosecond: t.nanosecond() })
}

/// How the registry writes the time a repository was last indexed.
pub const REGISTRY_TIME_FORMAT: &'static str = "%Y-%m-%d %H:%M:%S";

/// A repository as the registry records it.
pub struct RepoInfo {
    pub name: String,
    pub root_path: String,
    pub db_path: String,
    pub last_indexed: Option<Timestamp>,
    pub symbol_count: Option<usize>,
}

/// The time read from a registry row, if any: its text in
/// [`REGISTRY_TIME_FORMAT`], or none when it does not fit it.
pub open spec fn registry_time(text: Option<String>) -> Option<Timestamp> {
    match text {
        Some(t) => parsed_time(t@, REGISTRY_TIME_FORMAT@),
        None => None,
    }
}

/// A repository record from the fields of a registry row; the time of the
/// last indexing is read in [`REGISTRY_TIME_FORMAT`], and a time that does
/// not fit it is left out. The symbol count is not part of the row.
pub fn repo_record(name: String, root_path: String, db_path: String, last_indexed: Option<String>) -> (r: RepoInfo)
    ensures
        r.name@ == name@,
        r.root_path@ == root_path@,
        r.db_path@ == db_path@,
        r.last_indexed == registry_time(last_indexed),
        r.symbol_count is None,
{
    let time = match &last_indexed {
        Some(t) => parse_time(t.as_str(), REGISTRY_TIME_FORMAT),
        None => None,
    };
    RepoInfo { name, root_path, db_path, last_indexed: time, symbol_count: None }
}

/// The name under which the repository rooted at `root` is registered:
/// that of the first record with this root, if any.
pub open spec fn registered_name_spec(repos: Seq<RepoInfo>, root: Seq<char>) -> Option<Seq<char>>
    decreases repos.len(),
{
    if repos.len() == 0 {
        None
    } else if repos[0].root_path@ == root {
        Some(repos[0].name@)
    } else {
        registered_name_spec(repos.drop_first(), root)
    }
}

/// The name under which the repository rooted at `root` is registered, if
/// any, so that it is indexed again under that name.
pub fn registered_name(repos: &Vec<RepoInfo>, root: &str) -> (r: Option<String>)
    ensures
        opt_view(r) == registered_name_spec(repos@, root@),
{
    let mut i: usize = 0;
    assert(repos@.skip(0) =~= repos@);
    while i < repos.len()
        invariant
            i <= repos@.len(),
            registered_name_spec(repos@, root@) == registered_name_spec(repos@.skip(i as int), root@),
        decreases repos@.len() - i,
    {
        assert(repos@.skip(i as int)[0] == repos@[i as int]);
        if str_eq(repos[i].root_path.as_str(), root) {
            return Some(repos[i].name.clone());
        }
        assert(repos@.skip(i as int).drop_first() =~= repos@.skip(i + 1));
        i = i + 1;
    }
    None
}

} // verus!
