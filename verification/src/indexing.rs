//! The decisions of an indexing run: which walked entries to read, whether a
//! file changed since it was last indexed, and what to store for it.

use sha2::Digest;
use vstd::prelude::*;
use vstd::utf8::encode_utf8;
use crate::model::{RouteInfo, Symbol, SymbolView};
use crate::routes::{extract_routes, extract_routes_spec, routes_view};
use crate::syntax::{file_symbols, grammar_spec, language_name, language_name_spec, opt_str_view, symbols_view, ParseError, Parser};
use crate::text::{lossy_string, lossy_utf8, lower_case, str_eq};

verus! {

/// What SHA-256 makes of `data`.
pub uninterp spec fn sha256(data: Seq<u8>) -> Seq<u8>;

/// Calls `sha2::Sha256::digest`; the digest is 32 bytes long.
#[verifier::external_body]
fn sha256_digest(data: &[u8]) -> (r: Vec<u8>)
    ensures
        r@ == sha256(data@),
        r@.len() == 32,
{
    sha2::Sha256::digest(data).to_vec()
}

/// The lower-case hexadecimal digit of a value below 16.
pub open spec fn hex_digit(n: u8) -> char {
    seq!['0', '1', '2', '3', '4', '5', '6', '7', '8', '9', 'a', 'b', 'c', 'd', 'e', 'f'][n as int]
}

/// Bytes in lower-case hexadecimal, two digits per byte, high nibble first.
pub open spec fn hex_lower(b: Seq<u8>) -> Seq<char>
    decreases b.len(),
{
    if b.len() == 0 {
        Seq::empty()
    } else {
        hex_lower(b.drop_last()) + seq![hex_digit(b.last() / 16), hex_digit(b.last() % 16)]
    }
}

/// Calls `hex::encode`, which writes each byte as two lower-case
/// hexadecimal digits, high nibble first.
#[verifier::external_body]
fn hex_encode(data: &[u8]) -> (r: String)
    ensures
        r@ == hex_lower(data@),
{
    hex::encode(data)
}

proof fn lemma_hex_len(b: Seq<u8>)
    ensures
        hex_lower(b).len() == 2 * b.len(),
    decreases b.len(),
{
    if b.len() > 0 {
        lemma_hex_len(b.drop_last());
    }
}

/// The content hash of a source text: the SHA-256 digest of its UTF-8
/// bytes in lower-case hexadecimal, 64 characters.
pub fn calculate_hash(source: &str) -> (r: String)
    ensures
        r@ == hex_lower(sha256(encode_utf8(source@))),
        r@.len() == 64,
{
    let digest = sha256_digest(source.as_bytes());
    proof {
        lemma_hex_len(digest@);
    }
    hex_encode(digest.as_slice())
}

/// The extensions, with their dot, of files that are never read.
pub open spec fn skipped_extensions() -> Seq<Seq<char>> {
    seq![
        ".pyc"@, ".so"@, ".dylib"@, ".dll"@, ".exe"@, ".bin"@, ".png"@, ".jpg"@, ".jpeg"@, ".gif"@,
        ".webp"@, ".db"@, ".sqlite"@, ".pdf"@, ".zip"@, ".tar"@, ".gz"@, ".mp3"@, ".mp4"@, ".mov"@,
        ".avi"@, ".wav"@, ".ico"@, ".ttf"@, ".woff"@, ".woff2"@, ".eot"@, ".otf"@
    ]
}

/// Whether files with extension `ext` (without its dot) are never read.
pub open spec fn is_skipped_spec(ext: Seq<char>) -> bool {
    skipped_extensions().contains("."@ + ext)
}

/// Whether files with extension `ext` (without its dot) are skipped as binary.
pub fn is_skipped_extension(ext: &str) -> (r: bool)
    ensures
        r == is_skipped_spec(ext@),
{
    let skip: [&str; 28] = [
        ".pyc", ".so", ".dylib", ".dll", ".exe", ".bin", ".png", ".jpg", ".jpeg", ".gif", ".webp",
        ".db", ".sqlite", ".pdf", ".zip", ".tar", ".gz", ".mp3", ".mp4", ".mov", ".avi", ".wav",
        ".ico", ".ttf", ".woff", ".woff2", ".eot", ".otf",
    ];
    let ghost views = skip@.map_values(|s: &str| s@);
    assert(views =~= skipped_extensions());
    let mut dotted = ".".to_owned();
    dotted.append(ext);
    let mut i: usize = 0;
    while i < 28
        invariant
            i <= 28,
            views == skip@.map_values(|s: &str| s@),
            views == skipped_extensions(),
            dotted@ == "."@ + ext@,
            forall|j: int| 0 <= j < i ==> views[j] != dotted@,
        decreases 28 - i,
    {
        if str_eq(skip[i], dotted.as_str()) {
            assert(views[i as int] == dotted@);
            return true;
        }
        i = i + 1;
    }
    false
}

/// The names of directories that are never walked into: version control,
/// package managers, Python environments and caches, vendored code, build
/// outputs and git worktrees.
pub open spec fn excluded_directories() -> Seq<Seq<char>> {
    seq![
        ".git"@, ".svn"@, ".hg"@, ".bzr"@, "node_modules"@, "bower_components"@, "jspm_packages"@,
        "__pycache__"@, "venv"@, ".venv"@, ".tox"@, ".eggs"@, ".mypy_cache"@, ".pytest_cache"@,
        ".ruff_cache"@, "target"@, "vendor"@, "third_party"@, "third-party"@, "dist"@, "build"@,
        ".worktree"@
    ]
}

/// Whether a directory with this name is left out of the walk.
pub fn is_excluded_dir(name: &str) -> (r: bool)
    ensures
        r == excluded_directories().contains(name@),
{
    let dirs: [&str; 22] = [
        ".git", ".svn", ".hg", ".bzr", "node_modules", "bower_components", "jspm_packages",
        "__pycache__", "venv", ".venv", ".tox", ".eggs", ".mypy_cache", ".pytest_cache",
        ".ruff_cache", "target", "vendor", "third_party", "third-party", "dist", "build", ".worktree",
    ];
    let ghost views = dirs@.map_values(|s: &str| s@);
    assert(views =~= excluded_directories());
    let mut i: usize = 0;
    while i < 22
        invariant
            i <= 22,
            views == dirs@.map_values(|s: &str| s@),
            views == excluded_directories(),
            forall|j: int| 0 <= j < i ==> views[j] != name@,
        decreases 22 - i,
    {
        if str_eq(dirs[i], name) {
            assert(views[i as int] == name@);
            return true;
        }
        i = i + 1;
    }
    false
}

/// An entry that the directory walk yields, as the run sees it.
pub enum WalkEntry {
    /// The walk reported an error.
    Error,
    /// An entry that is not a regular file.
    NotAFile,
    /// A regular file, by its extension (without the dot).
    File { ext: String },
}

/// What to do with a walked entry.
pub enum EntryStep {
    /// Report the walk error and go on.
    Warn,
    /// Go on without reading it.
    Skip,
    /// Read the file.
    Read,
}

/// What a file contributes to the index when it is (re)indexed.
pub struct FileUpdate {
    /// The symbols to store, in tree order.
    pub symbols: Vec<Symbol>,
    /// The routes to store.
    pub routes: Vec<RouteInfo>,
}

/// What to do with a file that was read.
pub enum FileStep {
    /// Its hash is the one recorded: leave its rows alone.
    Unchanged,
    /// Its rows are to be replaced: its text and the hash to record.
    Changed { source: String, hash: String },
}

/// The state of an indexing run over one repository.
pub struct IndexSession {
    /// The repository name the rows are stored under.
    pub repo_name: String,
    /// How many symbols have been stored so far.
    pub symbol_count: usize,
}

/// The source text of a file's content: decoded lossily, then as bytes.
pub open spec fn source_bytes(content: Seq<u8>) -> Seq<u8> {
    encode_utf8(lossy_utf8(content))
}

/// The hash recorded for a file with this content.
pub open spec fn content_hash(content: Seq<u8>) -> Seq<char> {
    hex_lower(sha256(source_bytes(content)))
}

/// Whether a file with this content and this recorded hash is unchanged.
pub open spec fn is_unchanged(content: Seq<u8>, stored: Option<Seq<char>>) -> bool {
    stored == Some(content_hash(content))
}

/// The language routes are looked for with in a file with this extension:
/// the one the extension selects, or none (the empty name).
pub open spec fn route_language(ext: Seq<char>) -> Seq<char> {
    match language_name_spec(ext) {
        Some(l) => l,
        None => Seq::empty(),
    }
}

/// Gitignore-style patterns turned into the override globs that exclude
/// what they match: each pattern with `!` in front, in order.
pub fn exclusion_globs(patterns: &Vec<String>) -> (r: Vec<String>)
    ensures
        r@.len() == patterns@.len(),
        forall|i: int| 0 <= i < r@.len() ==> (#[trigger] r@[i])@ == "!"@ + patterns@[i]@,
{
    let mut out: Vec<String> = Vec::new();
    let mut i: usize = 0;
    while i < patterns.len()
        invariant
            i <= patterns@.len(),
            out@.len() == i,
            forall|k: int| 0 <= k < i ==> (#[trigger] out@[k])@ == "!"@ + patterns@[k]@,
        decreases patterns@.len() - i,
    {
        let mut g = String::new();
        g.append("!");
        g.append(patterns[i].as_str());
        out.push(g);
        i = i + 1;
    }
    out
}

/// The hash recorded for a file is taken over its whole text: the SHA-256
/// digest, in lower-case hexadecimal, of all of its lossily decoded content.
pub proof fn lemma_content_hash_whole_text(content: Seq<u8>)
    ensures
        content_hash(content) == hex_lower(sha256(encode_utf8(lossy_utf8(content)))),
{
}

proof fn lemma_hex_digit_injective(x: u8, y: u8)
    requires
        x < 16,
        y < 16,
        hex_digit(x) == hex_digit(y),
    ensures
        x == y,
{
    let ds = seq!['0', '1', '2', '3', '4', '5', '6', '7', '8', '9', 'a', 'b', 'c', 'd', 'e', 'f'];
    assert(hex_digit(x) == ds[x as int]);
    assert(hex_digit(y) == ds[y as int]);
}

/// Hexadecimal text determines the bytes it was written from.
pub proof fn lemma_hex_lower_injective(a: Seq<u8>, b: Seq<u8>)
    ensures
        hex_lower(a) == hex_lower(b) ==> a == b,
    decreases a.len(),
{
    lemma_hex_len(a);
    lemma_hex_len(b);
    if hex_lower(a) == hex_lower(b) && a.len() > 0 {
        let (ha, hb) = (hex_lower(a), hex_lower(b));
        let (pa, pb) = (hex_lower(a.drop_last()), hex_lower(b.drop_last()));
        lemma_hex_len(a.drop_last());
        lemma_hex_len(b.drop_last());
        let n = ha.len() as int;
        assert(ha[n - 2] == hex_digit(a.last() / 16) && ha[n - 1] == hex_digit(a.last() % 16));
        assert(hb[n - 2] == hex_digit(b.last() / 16) && hb[n - 1] == hex_digit(b.last() % 16));
        lemma_hex_digit_injective(a.last() / 16, b.last() / 16);
        lemma_hex_digit_injective(a.last() % 16, b.last() % 16);
        assert(a.last() == b.last());
        assert(pa =~= ha.subrange(0, n - 2));
        assert(pb =~= hb.subrange(0, n - 2));
        lemma_hex_lower_injective(a.drop_last(), b.drop_last());
        assert(a =~= a.drop_last().push(a.last()));
        assert(b =~= b.drop_last().push(b.last()));
    }
}

/// Two contents get the same recorded hash only when the SHA-256 digests of
/// their whole decoded texts agree. So a file whose text changed anywhere,
/// giving another digest, is read as changed.
pub proof fn lemma_same_hash_same_digest(c1: Seq<u8>, c2: Seq<u8>)
    ensures
        content_hash(c1) == content_hash(c2) ==> sha256(encode_utf8(lossy_utf8(c1))) == sha256(
            encode_utf8(lossy_utf8(c2)),
        ),
{
    lemma_hex_lower_injective(sha256(encode_utf8(lossy_utf8(c1))), sha256(encode_utf8(lossy_utf8(c2))));
}

/// The text embedded for a symbol holds, line by line, its signature, its
/// docstring and its name (a missing signature or docstring as an empty
/// line), and nothing else.
pub proof fn lemma_embedding_text_lines(s: Symbol)
    ensures
        ({
            let t = embedding_text_spec(s);
            let g = match s.signature {
                Some(x) => x@,
                None => Seq::<char>::empty(),
            };
            let d = match s.docstring {
                Some(x) => x@,
                None => Seq::<char>::empty(),
            };
            let n = s.name@;
            &&& t.len() == g.len() + d.len() + n.len() + 2
            &&& t.subrange(0, g.len() as int) == g
            &&& t[g.len() as int] == '\n'
            &&& t.subrange(g.len() + 1int, g.len() + 1int + d.len()) == d
            &&& t[g.len() + 1int + d.len()] == '\n'
            &&& t.subrange(g.len() + 2int + d.len(), t.len() as int) == n
        }),
{
    reveal_strlit("\n");
    let t = embedding_text_spec(s);
    let g = match s.signature {
        Some(x) => x@,
        None => Seq::<char>::empty(),
    };
    let d = match s.docstring {
        Some(x) => x@,
        None => Seq::<char>::empty(),
    };
    let n = s.name@;
    assert(t == g + "\n"@ + d + "\n"@ + n);
    assert(t.subrange(0, g.len() as int) =~= g);
    assert(t.subrange(g.len() + 1int, g.len() + 1int + d.len()) =~= d);
    assert(t.subrange(g.len() + 2int + d.len(), t.len() as int) =~= n);
}

impl IndexSession {
    /// A run under the given repository name, or the folder's name when
    /// there is none, with no symbol stored yet.
    pub fn new(name: Option<String>, folder_name: String) -> (r: IndexSession)
        ensures
            r.repo_name@ == (match name {
                Some(n) => n@,
                None => folder_name@,
            }),
            r.symbol_count == 0,
    {
        let repo_name = match name {
            Some(n) => n,
            None => folder_name,
        };
        IndexSession { repo_name, symbol_count: 0 }
    }

    /// Walk errors are reported, entries that are not files and files with a
    /// skipped extension are passed over, other files are read.
    pub fn on_entry(&self, entry: &WalkEntry) -> (r: EntryStep)
        ensures
            match entry {
                WalkEntry::Error => r is Warn,
                WalkEntry::NotAFile => r is Skip,
                WalkEntry::File { ext } => if is_skipped_spec(ext@) {
                    r is Skip
                } else {
                    r is Read
                },
            },
    {
        match entry {
            WalkEntry::Error => EntryStep::Warn,
            WalkEntry::NotAFile => EntryStep::Skip,
            WalkEntry::File { ext } => if is_skipped_extension(ext.as_str()) {
                EntryStep::Skip
            } else {
                EntryStep::Read
            },
        }
    }

    /// Decides on a file that was read: it is unchanged when the hash of
    /// its (lossily decoded) text is the recorded one.
    pub fn on_file(&self, content: &[u8], stored_hash: Option<&str>) -> (r: FileStep)
        ensures
            (r is Unchanged) <==> opt_str_view(stored_hash) == Some(content_hash(content@)),
            (r is Unchanged) <==> opt_str_view(stored_hash) == Some(
                hex_lower(sha256(encode_utf8(lossy_utf8(content@)))),
            ),
            match r {
                FileStep::Unchanged => is_unchanged(content@, opt_str_view(stored_hash)),
                FileStep::Changed { source, hash } => {
                    &&& !is_unchanged(content@, opt_str_view(stored_hash))
                    &&& source@ == lossy_utf8(content@)
                    &&& hash@ == content_hash(content@)
                    &&& hash@ == hex_lower(sha256(encode_utf8(source@)))
                },
            },
    {
        let source = lossy_string(content);
        let hash = calculate_hash(source.as_str());
        if let Some(h) = stored_hash {
            if str_eq(h, hash.as_str()) {
                return FileStep::Unchanged;
            }
        }
        FileStep::Changed { source, hash }
    }

    /// The symbols and routes of a changed file, the symbols counted (the
    /// count stops at `usize::MAX`). Routes are looked for with the language
    /// that the extension selects (none when it selects none). A parse
    /// failure ends the run.
    pub fn extract(&mut self, parser: &mut Parser, source: &str, ext: &str, rel_path: &str) -> (r: Result<FileUpdate, ParseError>)
        ensures
            final(self).repo_name == old(self).repo_name,
            match r {
                Ok(u) => {
                    &&& routes_view(u.routes@) == extract_routes_spec(
                        encode_utf8(source@),
                        lower_case(route_language(ext@)),
                        old(self).repo_name@,
                        rel_path@,
                    )
                    &&& match grammar_spec(ext@) {
                        None => u.symbols@.len() == 0,
                        Some(g) => file_symbols(g, source@, language_name_spec(ext@)->0, old(self).repo_name@, rel_path@)
                            == Ok::<Seq<SymbolView>, ParseError>(symbols_view(u.symbols@)),
                    }
                    &&& final(self).symbol_count == if old(self).symbol_count + u.symbols@.len() <= usize::MAX {
                        old(self).symbol_count + u.symbols@.len()
                    } else {
                        usize::MAX as int
                    }
                },
                Err(e) => {
                    &&& grammar_spec(ext@) matches Some(g)
                    &&& file_symbols(g, source@, language_name_spec(ext@)->0, old(self).repo_name@, rel_path@)
                        == Err::<Seq<SymbolView>, ParseError>(e)
                    &&& final(self).symbol_count == old(self).symbol_count
                },
            },
    {
        let symbols = match parser.parse_file(source, ext, self.repo_name.as_str(), rel_path) {
            Ok(s) => s,
            Err(e) => return Err(e),
        };
        let lang = match language_name(ext) {
            Some(l) => l,
            None => "",
        };
        proof {
            reveal_strlit("");
        }
        assert(lang@ == route_language(ext@));
        let routes = extract_routes(source.as_bytes(), lang, self.repo_name.as_str(), rel_path);
        self.symbol_count = self.symbol_count.saturating_add(symbols.len());
        Ok(FileUpdate { symbols, routes })
    }
}

/// The text whose embedding represents a symbol: its signature, its
/// docstring and its name, one per line (a missing one as an empty line).
pub open spec fn embedding_text_spec(s: Symbol) -> Seq<char> {
    (match s.signature {
        Some(t) => t@,
        None => Seq::empty(),
    }) + "\n"@ + (match s.docstring {
        Some(t) => t@,
        None => Seq::empty(),
    }) + "\n"@ + s.name@
}

/// The text whose embedding represents a symbol.
pub fn embedding_text(s: &Symbol) -> (r: String)
    ensures
        r@ == embedding_text_spec(*s),
{
    let mut t = String::new();
    if let Some(sig) = &s.signature {
        t.append(sig.as_str());
    }
    t.append("\n");
    if let Some(doc) = &s.docstring {
        t.append(doc.as_str());
    }
    t.append("\n");
    t.append(s.name.as_str());
    assert(t@ =~= embedding_text_spec(*s));
    t
}

} // verus!
