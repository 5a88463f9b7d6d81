//! What searching decides: the queries it sends to a repository's index,
//! how name matches are ranked, and what source text a symbol's span selects.

use vstd::prelude::*;
use vstd::utf8::{decode_utf8, encode_utf8, valid_utf8};
use crate::syntax::{lemma_symbol_name_within, named_by_holder, node_symbol, signature_of_text, text_within, tree_shaped, NodeEntryView};
use crate::model::Symbol;
use crate::text::{lossy_string, lossy_utf8, to_upper, upper_case};
use vstd::slice::slice_subrange;

verus! {

/// The ranking key of a symbol: the length of its name in bytes (`String::len`).
pub open spec fn name_len(s: Symbol) -> usize {
    encode_utf8(s.name@).len() as usize
}

/// `sorted` with `x` inserted after every element whose key is at most that of `x`,
/// scanning from the end.
pub open spec fn insert_by_name_len(sorted: Seq<Symbol>, x: Symbol) -> Seq<Symbol>
    decreases sorted.len(),
{
    if sorted.len() == 0 {
        seq![x]
    } else if name_len(sorted.last()) <= name_len(x) {
        sorted.push(x)
    } else {
        insert_by_name_len(sorted.drop_last(), x).push(sorted.last())
    }
}

/// `s` ordered by name length, ties kept in the order they came in (the
/// stable `sort_by` on `name.len()`).
pub open spec fn sort_by_name_len(s: Seq<Symbol>) -> Seq<Symbol>
    decreases s.len(),
{
    if s.len() == 0 {
        s
    } else {
        insert_by_name_len(sort_by_name_len(s.drop_last()), s.last())
    }
}

/// The first `limit` elements of `s`, or all of them when there are fewer.
pub open spec fn first_n<T>(s: Seq<T>, limit: usize) -> Seq<T> {
    if limit < s.len() {
        s.take(limit as int)
    } else {
        s
    }
}

/// The byte length of a symbol's name.
fn name_len_of(s: &Symbol) -> (r: usize)
    ensures
        r == name_len(*s),
{
    s.name.as_str().len()
}

proof fn lemma_insert_shift(s: Seq<Symbol>, x: Symbol, j: int)
    requires
        0 < j <= s.len(),
        name_len(s[j - 1]) > name_len(x),
        insert_by_name_len(s, x) == insert_by_name_len(s.take(j), x) + s.skip(j),
    ensures
        insert_by_name_len(s, x) == insert_by_name_len(s.take(j - 1), x) + s.skip(j - 1),
{
    assert(s.take(j).drop_last() =~= s.take(j - 1));
    assert(s.take(j).last() == s[j - 1]);
    let a = insert_by_name_len(s.take(j - 1), x);
    assert(insert_by_name_len(s.take(j), x) == a.push(s[j - 1]));
    assert(s.skip(j - 1) =~= seq![s[j - 1]] + s.skip(j));
    assert(a.push(s[j - 1]) + s.skip(j) =~= a + s.skip(j - 1));
}

proof fn lemma_insert_stop(s: Seq<Symbol>, x: Symbol, j: int)
    requires
        0 <= j <= s.len(),
        j > 0 ==> name_len(s[j - 1]) <= name_len(x),
        insert_by_name_len(s, x) == insert_by_name_len(s.take(j), x) + s.skip(j),
    ensures
        insert_by_name_len(s, x) == s.insert(j, x),
{
    let t = s.take(j);
    if j > 0 {
        assert(t.last() == s[j - 1]);
    }
    assert(insert_by_name_len(t, x) == t.push(x));
    assert(s.insert(j, x) =~= t.push(x) + s.skip(j));
}

/// Inserts `x` into `v` as [`insert_by_name_len`] does.
fn insert_ranked(v: &mut Vec<Symbol>, x: Symbol)
    ensures
        final(v)@ == insert_by_name_len(old(v)@, x),
{
    let k = name_len_of(&x);
    let mut j: usize = v.len();
    proof {
        assert(v@.take(v@.len() as int) =~= v@);
        assert(v@.skip(v@.len() as int) =~= Seq::<Symbol>::empty());
        assert(insert_by_name_len(v@, x) + Seq::<Symbol>::empty() =~= insert_by_name_len(v@, x));
    }
    while j > 0 && name_len_of(&v[j - 1]) > k
        invariant
            j <= v@.len(),
            k == name_len(x),
            insert_by_name_len(v@, x) == insert_by_name_len(v@.take(j as int), x) + v@.skip(j as int),
        decreases j,
    {
        proof {
            lemma_insert_shift(v@, x, j as int);
        }
        j = j - 1;
    }
    proof {
        lemma_insert_stop(v@, x, j as int);
    }
    v.insert(j, x);
}

/// The symbols ordered by name length, shortest first and ties in their
/// input order, cut to at most `limit` of them.
pub fn rank_symbols(all: Vec<Symbol>, limit: usize) -> (r: Vec<Symbol>)
    ensures
        r@ == first_n(sort_by_name_len(all@), limit),
{
    let mut sorted: Vec<Symbol> = Vec::new();
    let mut rest = all;
    let ghost input = rest@;
    let mut i: usize = 0;
    let n = rest.len();
    while i < n
        invariant
            n == input.len(),
            i <= n,
            rest@ == input.skip(i as int),
            sorted@ == sort_by_name_len(input.take(i as int)),
        decreases n - i,
    {
        let x = rest.remove(0);
        proof {
            assert(x == input[i as int]);
            assert(input.skip(i + 1) =~= input.skip(i as int).remove(0));
            assert(input.take(i + 1).drop_last() =~= input.take(i as int));
            assert(input.take(i + 1).last() == input[i as int]);
        }
        insert_ranked(&mut sorted, x);
        i = i + 1;
    }
    proof {
        assert(input.take(n as int) =~= input);
    }
    sorted.truncate(limit);
    sorted
}


/// Whether `s` is ordered by name length, shortest first.
pub open spec fn sorted_by_name_len(s: Seq<Symbol>) -> bool {
    forall|i: int, j: int| 0 <= i < j < s.len() ==> name_len(#[trigger] s[i]) <= name_len(#[trigger] s[j])
}

/// The elements of `s` whose name has byte length `k`, in their order in `s`.
pub open spec fn with_name_len(s: Seq<Symbol>, k: usize) -> Seq<Symbol>
    decreases s.len(),
{
    if s.len() == 0 {
        s
    } else {
        let sub = with_name_len(s.drop_last(), k);
        if name_len(s.last()) == k {
            sub.push(s.last())
        } else {
            sub
        }
    }
}

proof fn lemma_insert_bounded(t: Seq<Symbol>, x: Symbol, b: usize)
    requires
        forall|i: int| 0 <= i < t.len() ==> name_len(#[trigger] t[i]) <= b,
        name_len(x) <= b,
    ensures
        forall|i: int| 0 <= i < insert_by_name_len(t, x).len() ==> name_len(#[trigger] insert_by_name_len(t, x)[i]) <= b,
        insert_by_name_len(t, x).len() == t.len() + 1,
    decreases t.len(),
{
    if t.len() > 0 && name_len(t.last()) > name_len(x) {
        let d = t.drop_last();
        assert forall|i: int| 0 <= i < d.len() implies name_len(#[trigger] d[i]) <= b by {
            assert(d[i] == t[i]);
        }
        lemma_insert_bounded(d, x, b);
    }
}

proof fn lemma_insert_sorted(t: Seq<Symbol>, x: Symbol)
    requires
        sorted_by_name_len(t),
    ensures
        sorted_by_name_len(insert_by_name_len(t, x)),
    decreases t.len(),
{
    if t.len() == 0 {
    } else if name_len(t.last()) <= name_len(x) {
        let r = t.push(x);
        assert forall|i: int, j: int| 0 <= i < j < r.len() implies name_len(#[trigger] r[i]) <= name_len(#[trigger] r[j]) by {
            if j == t.len() {
                if i < t.len() - 1 {
                    assert(name_len(t[i]) <= name_len(t[t.len() - 1]));
                }
            }
        }
    } else {
        let d = t.drop_last();
        let last = t.last();
        assert forall|i: int, j: int| 0 <= i < j < d.len() implies name_len(#[trigger] d[i]) <= name_len(#[trigger] d[j]) by {
            assert(d[i] == t[i] && d[j] == t[j]);
        }
        lemma_insert_sorted(d, x);
        assert forall|i: int| 0 <= i < d.len() implies name_len(#[trigger] d[i]) <= name_len(last) by {
            assert(d[i] == t[i]);
        }
        lemma_insert_bounded(d, x, name_len(last));
        let a = insert_by_name_len(d, x);
        let r = a.push(last);
        assert forall|i: int, j: int| 0 <= i < j < r.len() implies name_len(#[trigger] r[i]) <= name_len(#[trigger] r[j]) by {
            if j < a.len() {
                assert(r[i] == a[i] && r[j] == a[j]);
            } else {
                assert(r[i] == a[i]);
            }
        }
    }
}

/// Ranking orders symbols by the byte length of their names, shortest first.
pub proof fn lemma_ranking_sorted(s: Seq<Symbol>)
    ensures
        sorted_by_name_len(sort_by_name_len(s)),
    decreases s.len(),
{
    if s.len() > 0 {
        lemma_ranking_sorted(s.drop_last());
        lemma_insert_sorted(sort_by_name_len(s.drop_last()), s.last());
    }
}

proof fn lemma_insert_multiset(t: Seq<Symbol>, x: Symbol)
    ensures
        insert_by_name_len(t, x).to_multiset() =~= t.to_multiset().insert(x),
    decreases t.len(),
{
    broadcast use vstd::seq_lib::group_to_multiset_ensures;

    if t.len() == 0 {
        assert(seq![x] =~= Seq::<Symbol>::empty().push(x));
    } else if name_len(t.last()) <= name_len(x) {
    } else {
        let d = t.drop_last();
        lemma_insert_multiset(d, x);
        assert(t =~= d.push(t.last()));
    }
}

/// Ranking neither loses, adds nor duplicates a symbol: it reorders them.
pub proof fn lemma_ranking_permutes(s: Seq<Symbol>)
    ensures
        sort_by_name_len(s).to_multiset() =~= s.to_multiset(),
    decreases s.len(),
{
    broadcast use vstd::seq_lib::group_to_multiset_ensures;

    if s.len() > 0 {
        lemma_ranking_permutes(s.drop_last());
        lemma_insert_multiset(sort_by_name_len(s.drop_last()), s.last());
        assert(s =~= s.drop_last().push(s.last()));
    }
}

proof fn lemma_insert_with_name_len(t: Seq<Symbol>, x: Symbol, k: usize)
    requires
        sorted_by_name_len(t),
    ensures
        with_name_len(insert_by_name_len(t, x), k) == (if name_len(x) == k {
            with_name_len(t, k).push(x)
        } else {
            with_name_len(t, k)
        }),
    decreases t.len(),
{
    if t.len() == 0 {
        assert(seq![x].drop_last() =~= Seq::<Symbol>::empty());
        assert(t =~= Seq::<Symbol>::empty());
        assert(Seq::<Symbol>::empty().push(x) =~= seq![x]);
        assert(seq![x].last() == x);
        assert(with_name_len(t, k) =~= Seq::<Symbol>::empty());
        assert(with_name_len(Seq::<Symbol>::empty(), k) =~= Seq::<Symbol>::empty());
    } else if name_len(t.last()) <= name_len(x) {
        assert(t.push(x).drop_last() =~= t);
        assert(t.push(x).last() == x);
    } else {
        let d = t.drop_last();
        assert forall|i: int, j: int| 0 <= i < j < d.len() implies name_len(#[trigger] d[i]) <= name_len(#[trigger] d[j]) by {
            assert(d[i] == t[i] && d[j] == t[j]);
        }
        lemma_insert_with_name_len(d, x, k);
        let a = insert_by_name_len(d, x);
        let last = t.last();
        assert(a.push(last).drop_last() =~= a);
        assert(a.push(last).last() == last);
        assert(insert_by_name_len(t, x) == a.push(last));
        assert(with_name_len(a.push(last), k) == (if name_len(last) == k { with_name_len(a, k).push(last) } else { with_name_len(a, k) }));
        assert(t.drop_last() == d);
        assert(with_name_len(t, k) == (if name_len(last) == k { with_name_len(d, k).push(last) } else { with_name_len(d, k) }));
    }
}

/// Ranking is stable: symbols whose names have the same byte length keep
/// the order they came in.
pub proof fn lemma_ranking_stable(s: Seq<Symbol>, k: usize)
    ensures
        with_name_len(sort_by_name_len(s), k) == with_name_len(s, k),
    decreases s.len(),
{
    if s.len() > 0 {
        let d = s.drop_last();
        lemma_ranking_stable(d, k);
        lemma_ranking_sorted(d);
        lemma_insert_with_name_len(sort_by_name_len(d), s.last(), k);
    }
}

/// What a ranked result holds: `min(limit, n)` symbols, shortest names
/// first, and no symbol left out has a shorter name than one kept.
pub proof fn lemma_ranked_prefix(s: Seq<Symbol>, limit: usize)
    ensures
        first_n(sort_by_name_len(s), limit).len() == (if limit < s.len() { limit as nat } else { s.len() }),
        sorted_by_name_len(first_n(sort_by_name_len(s), limit)),
        forall|i: int, j: int|
            0 <= i < first_n(sort_by_name_len(s), limit).len() <= j < s.len() ==> name_len(
                #[trigger] first_n(sort_by_name_len(s), limit)[i],
            ) <= name_len(#[trigger] sort_by_name_len(s)[j]),
{
    broadcast use vstd::seq_lib::group_to_multiset_ensures;

    lemma_ranking_sorted(s);
    lemma_ranking_permutes(s);
    let t = sort_by_name_len(s);
    assert(t.len() == s.len()) by {
        assert(t.to_multiset().len() == s.to_multiset().len());
    }
    let r = first_n(t, limit);
    assert forall|i: int, j: int| 0 <= i < j < r.len() implies name_len(#[trigger] r[i]) <= name_len(#[trigger] r[j]) by {
        assert(r[i] == t[i] && r[j] == t[j]);
    }
    assert forall|i: int, j: int| 0 <= i < r.len() <= j < s.len() implies name_len(#[trigger] r[i]) <= name_len(#[trigger] t[j]) by {
        assert(r[i] == t[i]);
    }
}


/// A value bound to a `?` placeholder of an SQL statement.
pub enum SqlParam {
    Text(String),
    Integer(i64),
}

/// The mathematical content of an [`SqlParam`].
pub ghost enum SqlParamView {
    Text(Seq<char>),
    Integer(i64),
}

impl View for SqlParam {
    type V = SqlParamView;

    open spec fn view(&self) -> SqlParamView {
        match self {
            SqlParam::Text(s) => SqlParamView::Text(s@),
            SqlParam::Integer(i) => SqlParamView::Integer(*i),
        }
    }
}

/// An SQL statement with its parameters, in placeholder order.
pub struct SqlQuery {
    pub sql: String,
    pub params: Vec<SqlParam>,
}

/// The views of a list of parameters.
pub open spec fn params_view(p: Seq<SqlParam>) -> Seq<SqlParamView> {
    p.map_values(|x: SqlParam| x@)
}

/// The `LIKE` pattern that matches any text containing `s`.
pub open spec fn contains_pattern(s: Seq<char>) -> Seq<char> {
    "%"@ + s + "%"@
}

/// The statement that looks up symbols by name in one repository's index.
pub open spec fn symbol_query_sql(kind: bool) -> Seq<char> {
    "SELECT id, repo, file, name, kind, start_byte, end_byte, signature, docstring FROM symbols WHERE name LIKE ?"@
        + (if kind { " AND kind = ?"@ } else { Seq::empty() }) + " LIMIT ?"@
}

/// The parameters of [`symbol_query_sql`].
pub open spec fn symbol_query_params(query: Seq<char>, kind: Option<Seq<char>>, limit: usize) -> Seq<SqlParamView> {
    seq![SqlParamView::Text(contains_pattern(query))] + (match kind {
        Some(k) => seq![SqlParamView::Text(k)],
        None => Seq::empty(),
    }) + seq![SqlParamView::Integer(limit as i64)]
}

/// The statement that looks up routes of a repository.
pub open spec fn route_query_sql(method: bool, path: bool) -> Seq<char> {
    "SELECT id, repo, file, method, path, handler, start_byte, end_byte FROM routes WHERE repo = ?"@
        + (if method { " AND method = ?"@ } else { Seq::empty() })
        + (if path { " AND path LIKE ?"@ } else { Seq::empty() }) + " LIMIT ?"@
}

/// The parameters of [`route_query_sql`]: the method in upper case, the path
/// as a containment pattern.
pub open spec fn route_query_params(repo: Seq<char>, method: Option<Seq<char>>, path: Option<Seq<char>>, limit: usize) -> Seq<SqlParamView> {
    seq![SqlParamView::Text(repo)] + (match method {
        Some(m) => seq![SqlParamView::Text(upper_case(m))],
        None => Seq::empty(),
    }) + (match path {
        Some(p) => seq![SqlParamView::Text(contains_pattern(p))],
        None => Seq::empty(),
    }) + seq![SqlParamView::Integer(limit as i64)]
}

/// A name search matches the query as a substring whether or not a kind
/// is given: the first parameter is always `%query%`; a kind filter adds
/// its kind, unchanged, as the second; the limit comes last.
pub proof fn lemma_symbol_query_substring(query: Seq<char>, kind: Option<Seq<char>>, limit: usize)
    ensures
        ({
            let ps = symbol_query_params(query, kind, limit);
            &&& ps[0] == SqlParamView::Text("%"@ + query + "%"@)
            &&& ps.len() == if kind is Some { 3int } else { 2int }
            &&& (kind matches Some(k) ==> ps[1] == SqlParamView::Text(k))
            &&& ps.last() == SqlParamView::Integer(limit as i64)
        }),
        symbol_query_params(query, kind, limit)[0] == symbol_query_params(query, None, limit)[0],
{
}

/// A route search matches the path as a substring whether or not a method
/// is given: after the repository (and the method, when given) comes
/// `%path%` when a path is given; the limit comes last.
pub proof fn lemma_route_query_substring(repo: Seq<char>, method: Option<Seq<char>>, path: Option<Seq<char>>, limit: usize)
    ensures
        ({
            let ps = route_query_params(repo, method, path, limit);
            let m: int = if method is Some { 1 } else { 0 };
            let p: int = if path is Some { 1 } else { 0 };
            &&& ps.len() == 2 + m + p
            &&& ps[0] == SqlParamView::Text(repo)
            &&& (method matches Some(x) ==> ps[1] == SqlParamView::Text(upper_case(x)))
            &&& (path matches Some(x) ==> ps[1 + m] == SqlParamView::Text("%"@ + x + "%"@))
            &&& ps.last() == SqlParamView::Integer(limit as i64)
        }),
        path is Some ==> route_query_params(repo, method, path, limit)[if method is Some { 2int } else { 1int }]
            == route_query_params(repo, None, path, limit)[1],
{
}

/// `"%" + s + "%"`.
fn contains_pattern_of(s: &str) -> (r: String)
    ensures
        r@ == contains_pattern(s@),
{
    let mut p = "%".to_owned();
    p.append(s);
    p.append("%");
    p
}

/// The query that finds, in one repository's index, up to `limit` symbols
/// whose name contains `query`, of kind `kind` when one is given.
pub fn symbol_search_query(query: &str, kind: Option<&str>, limit: usize) -> (r: SqlQuery)
    ensures
        r.sql@ == symbol_query_sql(kind is Some),
        params_view(r.params@) == symbol_query_params(query@, match kind {
            Some(k) => Some(k@),
            None => None,
        }, limit),
{
    let mut sql = "SELECT id, repo, file, name, kind, start_byte, end_byte, signature, docstring FROM symbols WHERE name LIKE ?".to_owned();
    let mut params: Vec<SqlParam> = Vec::new();
    params.push(SqlParam::Text(contains_pattern_of(query)));
    if let Some(k) = kind {
        sql.append(" AND kind = ?");
        params.push(SqlParam::Text(k.to_owned()));
    }
    sql.append(" LIMIT ?");
    params.push(SqlParam::Integer(limit as i64));
    proof {
        let kv = match kind {
            Some(k) => Some(k@),
            None => None,
        };
        assert(params_view(params@) =~= symbol_query_params(query@, kv, limit));
        assert(sql@ =~= symbol_query_sql(kind is Some));
    }
    SqlQuery { sql, params }
}

/// The query that finds up to `limit` routes of `repo`, with the method
/// `method` (compared in upper case) and a path containing `path` when
/// those are given.
pub fn route_search_query(repo: &str, method: Option<&str>, path: Option<&str>, limit: usize) -> (r: SqlQuery)
    ensures
        r.sql@ == route_query_sql(method is Some, path is Some),
        params_view(r.params@) == route_query_params(repo@, match method {
            Some(m) => Some(m@),
            None => None,
        }, match path {
            Some(p) => Some(p@),
            None => None,
        }, limit),
{
    let mut sql = "SELECT id, repo, file, method, path, handler, start_byte, end_byte FROM routes WHERE repo = ?".to_owned();
    let mut params: Vec<SqlParam> = Vec::new();
    params.push(SqlParam::Text(repo.to_owned()));
    if let Some(m) = method {
        sql.append(" AND method = ?");
        params.push(SqlParam::Text(to_upper(m)));
    }
    if let Some(p) = path {
        sql.append(" AND path LIKE ?");
        params.push(SqlParam::Text(contains_pattern_of(p)));
    }
    sql.append(" LIMIT ?");
    params.push(SqlParam::Integer(limit as i64));
    proof {
        let mv = match method {
            Some(m) => Some(m@),
            None => None,
        };
        let pv = match path {
            Some(p) => Some(p@),
            None => None,
        };
        assert(params_view(params@) =~= route_query_params(repo@, mv, pv, limit));
        assert(sql@ =~= route_query_sql(method is Some, path is Some));
    }
    SqlQuery { sql, params }
}

/// Why a symbol's source could not be read.
pub enum SourceError {
    /// The byte span does not lie in the file.
    OutOfBounds,
}

/// The text of bytes `start..end` of a file's content, decoded as
/// `String::from_utf8_lossy` does. The span must start before the end of
/// the content and end within it; a span that starts after it ends is
/// outside what this accepts.
pub fn symbol_source_text(content: &[u8], start_byte: usize, end_byte: usize) -> (r: Result<String, SourceError>)
    requires
        !(start_byte < content@.len() && end_byte <= content@.len() && start_byte > end_byte),
    ensures
        match r {
            Ok(s) => start_byte < content@.len() && end_byte <= content@.len()
                && s@ == lossy_utf8(content@.subrange(start_byte as int, end_byte as int))
                && (valid_utf8(content@.subrange(start_byte as int, end_byte as int)) ==> s@ == decode_utf8(
                content@.subrange(start_byte as int, end_byte as int),
            )),
            Err(_) => !(start_byte < content@.len() && end_byte <= content@.len()),
        },
{
    if start_byte < content.len() && end_byte <= content.len() {
        Ok(lossy_string(slice_subrange(content, start_byte, end_byte)))
    } else {
        Err(SourceError::OutOfBounds)
    }
}

/// Reading back an extracted symbol's source from the unchanged file gives
/// the text its signature was taken from: when the span decodes, the
/// symbol's signature is the signature of the text read back. In a tree of
/// the shape tree-sitter gives, its name is the text of bytes inside that
/// span, unless it is a function value named by the declaration holding it.
pub proof fn lemma_source_text_signature(
    es: Seq<NodeEntryView>,
    i: int,
    src: Seq<u8>,
    lang: Seq<char>,
    repo: Seq<char>,
    file: Seq<char>,
    text: Seq<char>,
)
    requires
        tree_shaped(es, src.len()),
        node_symbol(es, i, src, lang, repo, file) is Some,
        valid_utf8(src.subrange(es[i].start_byte as int, es[i].end_byte as int)),
        text == decode_utf8(src.subrange(es[i].start_byte as int, es[i].end_byte as int)),
    ensures
        node_symbol(es, i, src, lang, repo, file)->0.signature == Some(signature_of_text(Some(text))),
        !named_by_holder(es, i, src) ==> text_within(
            src,
            node_symbol(es, i, src, lang, repo, file)->0.name,
            node_symbol(es, i, src, lang, repo, file)->0.start_byte,
            node_symbol(es, i, src, lang, repo, file)->0.end_byte,
        ),
{
    lemma_symbol_name_within(es, i, src, lang, repo, file);
}

} // verus!
