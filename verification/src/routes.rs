//! HTTP route extraction from Flask/FastAPI-style Python decorators,
//! Django `path(...)` entries and Express-style JavaScript/TypeScript calls.

use vstd::prelude::*;
use crate::model::{RouteInfo, RouteView};
use crate::text::{
    all_chars, ascii_lower, ascii_upper, is_ascii_bytes, is_ascii_text, lemma_ascii_decode, lemma_ascii_lower_idempotent, lemma_strip_in_props,
    lossy_chars, lossy_string, lossy_utf8, lower_case, str_eq, string_from_chars, strip_in, to_lower, to_upper,
    trim_in, upper_case,
};

verus! {

/// `@app.route("/path", methods=["GET", "POST"])` followed by a `def`.
pub const PY_ROUTE_PATTERN: &'static str = r#"(?s)@\w+\.route\(\s*["']([^"']+)["']\s*(?:,\s*methods\s*=\s*\[([^\]]*)\])?\s*\)\s*\n\s*(?:async\s+)?def\s+(\w+)"#;

/// `@app.get("/path")` and the other method shorthands, followed by a `def`.
pub const PY_SHORTHAND_PATTERN: &'static str = r#"(?s)@\w+\.(get|post|put|delete|patch|head|options)\(\s*["']([^"']+)["']\s*\)\s*\n\s*(?:async\s+)?def\s+(\w+)"#;

/// `app.get("/path", handler)` and the other Express methods: the handler
/// is named by the first word after the path (an inline `function` or
/// `async` handler is named by that keyword, `req => ...` by its
/// parameter); an arrow function with its parameters in parentheses gives
/// a route without a handler name.
pub const JS_ROUTE_PATTERN: &'static str = r#"\b\w+\.(get|post|put|delete|patch|head|options|all)\(\s*["'`]([^"'`]+)["'`]\s*,\s*(?:(\w+)|\([^)]*\)\s*=>)"#;

/// A Django `path("route/", view)` or `re_path(...)` entry.
pub const DJANGO_PATTERN: &'static str = r#"\b(?:re_)?path\(\s*r?["']([^"']+)["']\s*,\s*([\w.]+)"#;

/// The byte spans of one regex match: entry 0 is the whole match, entry `i`
/// the `i`-th capture group, `None` where a group did not take part.
pub struct CaptureSpans {
    pub groups: Vec<Option<(usize, usize)>>,
}

impl View for CaptureSpans {
    type V = Seq<Option<(usize, usize)>>;

    open spec fn view(&self) -> Seq<Option<(usize, usize)>> {
        self.groups@
    }
}

/// The views of a list of matches.
pub open spec fn captures_view(caps: Seq<CaptureSpans>) -> Seq<Seq<Option<(usize, usize)>>> {
    caps.map_values(|c: CaptureSpans| c@)
}

/// The views of a list of routes.
pub open spec fn routes_view(rs: Seq<RouteInfo>) -> Seq<RouteView> {
    rs.map_values(|r: RouteInfo| r@)
}

/// What the `regex` crate finds for `pattern` in `haystack`: the successive
/// non-overlapping matches of `Regex::captures_iter`, each as the spans of its
/// groups, or `None` when the pattern does not compile.
pub uninterp spec fn regex_captures(pattern: Seq<char>, haystack: Seq<u8>) -> Option<Seq<Seq<Option<(usize, usize)>>>>;

/// What the `regex` crate documents of one match in a haystack of `n`
/// bytes: group 0, the overall match, is always there and takes part, and
/// every group that takes part has `start <= end <= n`.
pub open spec fn capture_ok(c: Seq<Option<(usize, usize)>>, n: nat) -> bool {
    &&& c.len() >= 1
    &&& c[0] is Some
    &&& forall|g: int| 0 <= g < c.len() ==> (#[trigger] c[g] matches Some(p) ==> p.0 <= p.1 && p.1 <= n)
}

/// Whether every match of a list is as the `regex` crate documents, and
/// the matches come as `captures_iter` yields them: successive and not
/// overlapping, each ending before the next starts.
pub open spec fn captures_ok(caps: Seq<Seq<Option<(usize, usize)>>>, n: nat) -> bool {
    &&& forall|k: int| 0 <= k < caps.len() ==> capture_ok(#[trigger] caps[k], n)
    &&& forall|k: int, l: int| 0 <= k < l < caps.len() ==> whole_span(#[trigger] caps[k]).1 <= whole_span(
        #[trigger] caps[l],
    ).0
}

/// Compiles `pattern` with `regex::bytes::Regex::new` and lists the capture
/// spans of every match of `captures_iter` over `haystack`; what the matches
/// are is left to the name `regex_captures`. Of the matches it states what
/// the crate documents: group 0 is always present, every span has
/// `start <= end` and lies in the haystack (`&haystack[start..end]` works),
/// and the matches are successive and do not overlap.
#[verifier::external_body]
fn find_captures(pattern: &str, haystack: &[u8]) -> (r: Option<Vec<CaptureSpans>>)
    ensures
        match r {
            Some(v) => regex_captures(pattern@, haystack@) == Some(captures_view(v@)) && captures_ok(
                captures_view(v@),
                haystack@.len(),
            ),
            None => regex_captures(pattern@, haystack@) is None,
        },
{
    let re = regex::bytes::Regex::new(pattern).ok()?;
    Some(re.captures_iter(haystack).map(|c| CaptureSpans {
        groups: c.iter().map(|m| m.map(|m| (m.start(), m.end()))).collect(),
    }).collect())
}

/// The span of group `i` of a match, if the group took part.
pub open spec fn group(c: Seq<Option<(usize, usize)>>, i: int) -> Option<(usize, usize)> {
    if 0 <= i < c.len() {
        c[i]
    } else {
        None
    }
}

/// The bytes of group `i` of a match (empty when it took no part or its span
/// does not lie in `hay`).
pub open spec fn group_bytes(hay: Seq<u8>, c: Seq<Option<(usize, usize)>>, i: int) -> Seq<u8> {
    match group(c, i) {
        Some(p) => if p.0 <= p.1 && p.1 <= hay.len() {
            hay.subrange(p.0 as int, p.1 as int)
        } else {
            Seq::empty()
        },
        None => Seq::empty(),
    }
}

/// The span of the whole match.
pub open spec fn whole_span(c: Seq<Option<(usize, usize)>>) -> (usize, usize) {
    match group(c, 0) {
        Some(p) => p,
        None => (0, 0),
    }
}

/// The pieces of `s` between commas, as `split(|b| b == b',')` yields them.
pub open spec fn split_commas(s: Seq<u8>) -> Seq<Seq<u8>>
    decreases s.len(),
{
    if s.len() == 0 {
        seq![Seq::empty()]
    } else {
        let rest = split_commas(s.drop_last());
        if s.last() == 44u8 {
            rest.push(Seq::empty())
        } else {
            rest.update(rest.len() - 1, rest.last().push(s.last()))
        }
    }
}

/// The characters trimmed around a method name.
pub open spec fn method_quotes() -> Seq<char> {
    seq!['"', '\'', ' ']
}

/// One method name from a piece of a `methods=[...]` list.
pub open spec fn method_of(piece: Seq<u8>) -> Seq<char> {
    upper_case(strip_in(lossy_utf8(piece), method_quotes()))
}

/// The method names of the pieces, empty ones dropped.
pub open spec fn methods_of(pieces: Seq<Seq<u8>>) -> Seq<Seq<char>>
    decreases pieces.len(),
{
    if pieces.len() == 0 {
        Seq::empty()
    } else {
        let rest = methods_of(pieces.drop_last());
        let m = method_of(pieces.last());
        if m.len() > 0 {
            rest.push(m)
        } else {
            rest
        }
    }
}

/// The methods listed in the raw text of a `methods=[...]` list.
pub open spec fn parse_methods_spec(raw: Seq<u8>) -> Seq<Seq<char>> {
    methods_of(split_commas(raw))
}

/// The routes of one `@app.route(...)` match: one per method, `GET` when no
/// method list is given or it is empty.
pub open spec fn py_route_entries(hay: Seq<u8>, c: Seq<Option<(usize, usize)>>, repo: Seq<char>, file: Seq<char>) -> Seq<RouteView> {
    let raw = group_bytes(hay, c, 2);
    let methods = if raw.len() > 0 { parse_methods_spec(raw) } else { seq!["GET"@] };
    methods.map_values(|m: Seq<char>| RouteView {
        id: None,
        repo: repo,
        file: file,
        method: m,
        path: lossy_utf8(group_bytes(hay, c, 1)),
        handler: Some(lossy_utf8(group_bytes(hay, c, 3))),
        start_byte: whole_span(c).0,
        end_byte: whole_span(c).1,
    })
}

/// The routes of all `@app.route(...)` matches, in match order.
pub open spec fn py_routes(hay: Seq<u8>, caps: Seq<Seq<Option<(usize, usize)>>>, repo: Seq<char>, file: Seq<char>) -> Seq<RouteView>
    decreases caps.len(),
{
    if caps.len() == 0 {
        Seq::empty()
    } else {
        py_routes(hay, caps.drop_last(), repo, file) + py_route_entries(hay, caps.last(), repo, file)
    }
}

/// The text of group `i` of a match, if the group took part.
pub open spec fn group_text_opt(hay: Seq<u8>, c: Seq<Option<(usize, usize)>>, i: int) -> Option<Seq<char>> {
    if group(c, i) is Some {
        Some(lossy_utf8(group_bytes(hay, c, i)))
    } else {
        None
    }
}

/// The route of a match whose groups are method, path and handler; where
/// `inline_ok`, the handler may be an inline function, and is then unnamed.
pub open spec fn method_route(hay: Seq<u8>, c: Seq<Option<(usize, usize)>>, repo: Seq<char>, file: Seq<char>, inline_ok: bool) -> RouteView {
    RouteView {
        id: None,
        repo: repo,
        file: file,
        method: upper_case(lossy_utf8(group_bytes(hay, c, 1))),
        path: lossy_utf8(group_bytes(hay, c, 2)),
        handler: if inline_ok {
            group_text_opt(hay, c, 3)
        } else {
            Some(lossy_utf8(group_bytes(hay, c, 3)))
        },
        start_byte: whole_span(c).0,
        end_byte: whole_span(c).1,
    }
}

/// The routes of all method-path-handler matches, in match order.
pub open spec fn method_routes(hay: Seq<u8>, caps: Seq<Seq<Option<(usize, usize)>>>, repo: Seq<char>, file: Seq<char>, inline_ok: bool) -> Seq<RouteView> {
    caps.map_values(|c: Seq<Option<(usize, usize)>>| method_route(hay, c, repo, file, inline_ok))
}

/// The route of a Django `path(...)` match: any method, the route and the view.
pub open spec fn django_route(hay: Seq<u8>, c: Seq<Option<(usize, usize)>>, repo: Seq<char>, file: Seq<char>) -> RouteView {
    RouteView {
        id: None,
        repo: repo,
        file: file,
        method: "ANY"@,
        path: lossy_utf8(group_bytes(hay, c, 1)),
        handler: Some(lossy_utf8(group_bytes(hay, c, 2))),
        start_byte: whole_span(c).0,
        end_byte: whole_span(c).1,
    }
}

/// The routes of all Django `path(...)` matches, in match order.
pub open spec fn django_routes(hay: Seq<u8>, caps: Seq<Seq<Option<(usize, usize)>>>, repo: Seq<char>, file: Seq<char>) -> Seq<RouteView> {
    caps.map_values(|c: Seq<Option<(usize, usize)>>| django_route(hay, c, repo, file))
}

/// The matches of `pattern` in `hay`, none when it does not compile.
pub open spec fn matches_of(pattern: Seq<char>, hay: Seq<u8>) -> Seq<Seq<Option<(usize, usize)>>> {
    match regex_captures(pattern, hay) {
        Some(c) => c,
        None => Seq::empty(),
    }
}

/// The routes of a file, given its language name already in lower case.
pub open spec fn extract_routes_spec(hay: Seq<u8>, lang: Seq<char>, repo: Seq<char>, file: Seq<char>) -> Seq<RouteView> {
    if lang == "python"@ {
        py_routes(hay, matches_of(PY_ROUTE_PATTERN@, hay), repo, file)
            + method_routes(hay, matches_of(PY_SHORTHAND_PATTERN@, hay), repo, file, false)
            + django_routes(hay, matches_of(DJANGO_PATTERN@, hay), repo, file)
    } else if lang == "javascript"@ || lang == "typescript"@ {
        method_routes(hay, matches_of(JS_ROUTE_PATTERN@, hay), repo, file, true)
    } else {
        Seq::empty()
    }
}

/// No method name that a method list yields is empty.
pub proof fn lemma_methods_nonempty(raw: Seq<u8>)
    ensures
        forall|i: int| 0 <= i < parse_methods_spec(raw).len() ==> (#[trigger] parse_methods_spec(raw)[i]).len() > 0,
{
    lemma_methods_of_nonempty(split_commas(raw));
}

proof fn lemma_methods_of_nonempty(pieces: Seq<Seq<u8>>)
    ensures
        forall|i: int| 0 <= i < methods_of(pieces).len() ==> (#[trigger] methods_of(pieces)[i]).len() > 0,
    decreases pieces.len(),
{
    if pieces.len() > 0 {
        lemma_methods_of_nonempty(pieces.drop_last());
        let rest = methods_of(pieces.drop_last());
        let all = methods_of(pieces);
        assert forall|i: int| 0 <= i < all.len() implies (#[trigger] all[i]).len() > 0 by {
            if i < rest.len() {
                assert(all[i] == rest[i]);
            }
        }
    }
}

/// For a language name in ASCII, the routes found do not depend on the
/// letter case of the name: they are those found with its lower-case form,
/// and lower-casing that form again changes nothing.
pub proof fn lemma_routes_ignore_lang_case(hay: Seq<u8>, lang: Seq<char>, repo: Seq<char>, file: Seq<char>)
    requires
        is_ascii_text(lang),
    ensures
        is_ascii_text(ascii_lower(lang)),
        extract_routes_spec(hay, ascii_lower(ascii_lower(lang)), repo, file) == extract_routes_spec(
            hay,
            ascii_lower(lang),
            repo,
            file,
        ),
{
    lemma_ascii_lower_idempotent(lang);
}

/// The number of commas in `s`.
pub open spec fn comma_count(s: Seq<u8>) -> nat
    decreases s.len(),
{
    if s.len() == 0 {
        0
    } else {
        comma_count(s.drop_last()) + if s.last() == 44u8 {
            1nat
        } else {
            0nat
        }
    }
}

proof fn lemma_split_commas_len(s: Seq<u8>)
    ensures
        split_commas(s).len() == comma_count(s) + 1,
    decreases s.len(),
{
    if s.len() > 0 {
        lemma_split_commas_len(s.drop_last());
    }
}

proof fn lemma_methods_of_len(pieces: Seq<Seq<u8>>)
    ensures
        methods_of(pieces).len() <= pieces.len(),
    decreases pieces.len(),
{
    if pieces.len() > 0 {
        lemma_methods_of_len(pieces.drop_last());
    }
}

/// A method list yields at most one method more than it has commas.
pub proof fn lemma_methods_count(raw: Seq<u8>)
    ensures
        parse_methods_spec(raw).len() <= comma_count(raw) + 1,
{
    lemma_split_commas_len(raw);
    lemma_methods_of_len(split_commas(raw));
}

/// A route decorator whose method list is absent or empty declares one
/// route, for `GET`.
pub proof fn lemma_default_method_get(hay: Seq<u8>, c: Seq<Option<(usize, usize)>>, repo: Seq<char>, file: Seq<char>)
    requires
        group_bytes(hay, c, 2).len() == 0,
    ensures
        py_route_entries(hay, c, repo, file).len() == 1,
        py_route_entries(hay, c, repo, file)[0].method == "GET"@,
{
}

/// What holds of every route of a file in `lang`: it carries the
/// repository and file it was found in and no id yet; a Python route names
/// its handler.
pub open spec fn well_formed_route(r: RouteView, lang: Seq<char>, repo: Seq<char>, file: Seq<char>) -> bool {
    &&& r.id is None
    &&& r.repo == repo
    &&& r.file == file
    &&& (lang == "python"@ ==> r.handler is Some)
}

proof fn lemma_py_routes_well_formed(hay: Seq<u8>, caps: Seq<Seq<Option<(usize, usize)>>>, repo: Seq<char>, file: Seq<char>)
    ensures
        forall|i: int| 0 <= i < py_routes(hay, caps, repo, file).len() ==> well_formed_route(
            #[trigger] py_routes(hay, caps, repo, file)[i],
            "python"@,
            repo,
            file,
        ),
    decreases caps.len(),
{
    if caps.len() > 0 {
        lemma_py_routes_well_formed(hay, caps.drop_last(), repo, file);
        let a = py_routes(hay, caps.drop_last(), repo, file);
        let b = py_route_entries(hay, caps.last(), repo, file);
        let all = py_routes(hay, caps, repo, file);
        assert forall|i: int| 0 <= i < all.len() implies well_formed_route(#[trigger] all[i], "python"@, repo, file) by {
            if i < a.len() {
                assert(all[i] == a[i]);
            } else {
                assert(all[i] == b[i - a.len()]);
            }
        }
    }
}

/// Every extracted route is well formed.
pub proof fn lemma_routes_well_formed(hay: Seq<u8>, lang: Seq<char>, repo: Seq<char>, file: Seq<char>)
    ensures
        forall|i: int| 0 <= i < extract_routes_spec(hay, lang, repo, file).len() ==> well_formed_route(
            #[trigger] extract_routes_spec(hay, lang, repo, file)[i],
            lang,
            repo,
            file,
        ),
{
    let all = extract_routes_spec(hay, lang, repo, file);
    if lang == "python"@ {
        let caps = matches_of(PY_SHORTHAND_PATTERN@, hay);
        let a = py_routes(hay, matches_of(PY_ROUTE_PATTERN@, hay), repo, file);
        let b = method_routes(hay, caps, repo, file, false);
        let c = django_routes(hay, matches_of(DJANGO_PATTERN@, hay), repo, file);
        lemma_py_routes_well_formed(hay, matches_of(PY_ROUTE_PATTERN@, hay), repo, file);
        assert(all == a + b + c);
        assert forall|i: int| 0 <= i < all.len() implies well_formed_route(#[trigger] all[i], lang, repo, file) by {
            if i < a.len() {
                assert(all[i] == a[i]);
            } else if i < (a.len() + b.len()) as int {
                assert(all[i] == b[i - a.len()]);
            } else {
                assert(all[i] == c[i - a.len() - b.len()]);
            }
        }
    }
}

/// Whether every route's span lies in a source of `n` bytes, start first.
pub open spec fn spans_in(rs: Seq<RouteView>, n: nat) -> bool {
    forall|i: int| 0 <= i < rs.len() ==> (#[trigger] rs[i]).start_byte <= rs[i].end_byte && rs[i].end_byte <= n
}

proof fn lemma_whole_span_ok(c: Seq<Option<(usize, usize)>>, n: nat)
    requires
        capture_ok(c, n),
    ensures
        whole_span(c).0 <= whole_span(c).1 <= n,
{
    assert(c[0] matches Some(p) ==> p.0 <= p.1 && p.1 <= n);
}

proof fn lemma_method_routes_spans(hay: Seq<u8>, caps: Seq<Seq<Option<(usize, usize)>>>, repo: Seq<char>, file: Seq<char>, inline_ok: bool)
    requires
        captures_ok(caps, hay.len()),
    ensures
        spans_in(method_routes(hay, caps, repo, file, inline_ok), hay.len()),
{
    let rs = method_routes(hay, caps, repo, file, inline_ok);
    assert forall|i: int| 0 <= i < rs.len() implies (#[trigger] rs[i]).start_byte <= rs[i].end_byte && rs[i].end_byte
        <= hay.len() by {
        lemma_whole_span_ok(caps[i], hay.len());
    }
}

proof fn lemma_django_routes_spans(hay: Seq<u8>, caps: Seq<Seq<Option<(usize, usize)>>>, repo: Seq<char>, file: Seq<char>)
    requires
        captures_ok(caps, hay.len()),
    ensures
        spans_in(django_routes(hay, caps, repo, file), hay.len()),
{
    let rs = django_routes(hay, caps, repo, file);
    assert forall|i: int| 0 <= i < rs.len() implies (#[trigger] rs[i]).start_byte <= rs[i].end_byte && rs[i].end_byte
        <= hay.len() by {
        lemma_whole_span_ok(caps[i], hay.len());
    }
}

proof fn lemma_py_routes_spans(hay: Seq<u8>, caps: Seq<Seq<Option<(usize, usize)>>>, repo: Seq<char>, file: Seq<char>)
    requires
        captures_ok(caps, hay.len()),
    ensures
        spans_in(py_routes(hay, caps, repo, file), hay.len()),
    decreases caps.len(),
{
    if caps.len() > 0 {
        let rest = caps.drop_last();
        assert(captures_ok(rest, hay.len())) by {
            assert forall|k: int| 0 <= k < rest.len() implies capture_ok(#[trigger] rest[k], hay.len()) by {
                assert(rest[k] == caps[k]);
            }
        }
        lemma_py_routes_spans(hay, rest, repo, file);
        lemma_whole_span_ok(caps.last(), hay.len());
        let a = py_routes(hay, rest, repo, file);
        let b = py_route_entries(hay, caps.last(), repo, file);
        let all = py_routes(hay, caps, repo, file);
        assert forall|i: int| 0 <= i < all.len() implies (#[trigger] all[i]).start_byte <= all[i].end_byte
            && all[i].end_byte <= hay.len() by {
            if i < a.len() {
                assert(all[i] == a[i]);
            } else {
                assert(all[i] == b[i - a.len()]);
            }
        }
    }
}

/// Whether the routes start in source order.
pub open spec fn starts_sorted(rs: Seq<RouteView>) -> bool {
    forall|i: int, j: int| 0 <= i <= j < rs.len() ==> (#[trigger] rs[i]).start_byte <= (#[trigger] rs[j]).start_byte
}

/// Whether the routes come in three runs, split at `x` and `y`, each in
/// source order.
pub open spec fn sorted_blocks(rs: Seq<RouteView>, x: int, y: int) -> bool {
    &&& 0 <= x <= y <= rs.len()
    &&& starts_sorted(rs.subrange(0, x))
    &&& starts_sorted(rs.subrange(x, y))
    &&& starts_sorted(rs.subrange(y, rs.len() as int))
}

proof fn lemma_match_order(caps: Seq<Seq<Option<(usize, usize)>>>, n: nat, k: int, l: int)
    requires
        captures_ok(caps, n),
        0 <= k <= l < caps.len(),
    ensures
        whole_span(caps[k]).0 <= whole_span(caps[l]).0,
{
    lemma_whole_span_ok(caps[k], n);
    if k < l {
        assert(whole_span(caps[k]).1 <= whole_span(caps[l]).0);
    }
}

proof fn lemma_method_routes_sorted(hay: Seq<u8>, caps: Seq<Seq<Option<(usize, usize)>>>, repo: Seq<char>, file: Seq<char>, inline_ok: bool)
    requires
        captures_ok(caps, hay.len()),
    ensures
        starts_sorted(method_routes(hay, caps, repo, file, inline_ok)),
{
    let rs = method_routes(hay, caps, repo, file, inline_ok);
    assert forall|i: int, j: int| 0 <= i <= j < rs.len() implies (#[trigger] rs[i]).start_byte <= (
    #[trigger] rs[j]).start_byte by {
        lemma_match_order(caps, hay.len(), i, j);
    }
}

proof fn lemma_django_routes_sorted(hay: Seq<u8>, caps: Seq<Seq<Option<(usize, usize)>>>, repo: Seq<char>, file: Seq<char>)
    requires
        captures_ok(caps, hay.len()),
    ensures
        starts_sorted(django_routes(hay, caps, repo, file)),
{
    let rs = django_routes(hay, caps, repo, file);
    assert forall|i: int, j: int| 0 <= i <= j < rs.len() implies (#[trigger] rs[i]).start_byte <= (
    #[trigger] rs[j]).start_byte by {
        lemma_match_order(caps, hay.len(), i, j);
    }
}

proof fn lemma_py_routes_sorted(hay: Seq<u8>, caps: Seq<Seq<Option<(usize, usize)>>>, repo: Seq<char>, file: Seq<char>)
    requires
        captures_ok(caps, hay.len()),
    ensures
        starts_sorted(py_routes(hay, caps, repo, file)),
        caps.len() > 0 ==> forall|i: int| 0 <= i < py_routes(hay, caps, repo, file).len() ==> (#[trigger] py_routes(
            hay,
            caps,
            repo,
            file,
        )[i]).start_byte <= whole_span(caps.last()).0,
    decreases caps.len(),
{
    if caps.len() > 0 {
        let rest = caps.drop_last();
        let n = hay.len();
        assert(captures_ok(rest, n)) by {
            assert forall|k: int| 0 <= k < rest.len() implies capture_ok(#[trigger] rest[k], n) by {
                assert(rest[k] == caps[k]);
            }
            assert forall|k: int, l: int| 0 <= k < l < rest.len() implies whole_span(#[trigger] rest[k]).1
                <= whole_span(#[trigger] rest[l]).0 by {
                assert(rest[k] == caps[k]);
                assert(rest[l] == caps[l]);
            }
        }
        lemma_py_routes_sorted(hay, rest, repo, file);
        let a = py_routes(hay, rest, repo, file);
        let b = py_route_entries(hay, caps.last(), repo, file);
        let all = py_routes(hay, caps, repo, file);
        let top = whole_span(caps.last()).0;
        if rest.len() > 0 {
            lemma_match_order(caps, n, rest.len() - 1, caps.len() - 1);
            assert(rest.last() == caps[rest.len() - 1]);
        }
        assert forall|i: int| 0 <= i < a.len() implies (#[trigger] a[i]).start_byte <= top by {}
        assert forall|i: int| 0 <= i < b.len() implies (#[trigger] b[i]).start_byte == top by {}
        assert forall|i: int| 0 <= i < all.len() implies (#[trigger] all[i]).start_byte <= top by {
            if i < a.len() {
                assert(all[i] == a[i]);
            } else {
                assert(all[i] == b[i - a.len()]);
            }
        }
        assert forall|i: int, j: int| 0 <= i <= j < all.len() implies (#[trigger] all[i]).start_byte <= (
        #[trigger] all[j]).start_byte by {
            if j < a.len() {
                assert(all[i] == a[i]);
                assert(all[j] == a[j]);
            } else if i < a.len() {
                assert(all[i] == a[i]);
                assert(all[j] == b[j - a.len()]);
            } else {
                assert(all[i] == b[i - a.len()]);
                assert(all[j] == b[j - a.len()]);
            }
        }
    }
}

proof fn lemma_spans_of_view(rs: Seq<RouteInfo>, n: nat)
    requires
        spans_in(routes_view(rs), n),
    ensures
        forall|i: int| 0 <= i < rs.len() ==> (#[trigger] rs[i]).start_byte <= rs[i].end_byte && rs[i].end_byte <= n,
{
    assert forall|i: int| 0 <= i < rs.len() implies (#[trigger] rs[i]).start_byte <= rs[i].end_byte && rs[i].end_byte
        <= n by {
        assert(routes_view(rs)[i] == rs[i]@);
    }
}

proof fn lemma_spans_concat(a: Seq<RouteView>, b: Seq<RouteView>, n: nat)
    requires
        spans_in(a, n),
        spans_in(b, n),
    ensures
        spans_in(a + b, n),
{
    let c = a + b;
    assert forall|i: int| 0 <= i < c.len() implies (#[trigger] c[i]).start_byte <= c[i].end_byte && c[i].end_byte <= n by {
        if i < a.len() {
            assert(c[i] == a[i]);
        } else {
            assert(c[i] == b[i - a.len()]);
        }
    }
}

proof fn lemma_routes_view_push(s: Seq<RouteInfo>, x: RouteInfo)
    ensures
        routes_view(s.push(x)) == routes_view(s).push(x@),
{
    assert(routes_view(s.push(x)) =~= routes_view(s).push(x@));
}

/// The bytes of group `i` of a match.
fn group_slice(hay: &[u8], c: &CaptureSpans, i: usize) -> (r: Vec<u8>)
    ensures
        r@ == group_bytes(hay@, c@, i as int),
{
    let mut out: Vec<u8> = Vec::new();
    if i < c.groups.len() {
        if let Some(p) = c.groups[i] {
            if p.0 <= p.1 && p.1 <= hay.len() {
                let mut k = p.0;
                while k < p.1
                    invariant
                        p.0 <= k <= p.1 <= hay@.len(),
                        out@ == hay@.subrange(p.0 as int, k as int),
                    decreases p.1 - k,
                {
                    out.push(hay[k]);
                    k = k + 1;
                }
            }
        }
    }
    out
}

/// The text of group `i` of a match, decoded as `String::from_utf8_lossy` does.
fn group_text(hay: &[u8], c: &CaptureSpans, i: usize) -> (r: String)
    ensures
        r@ == lossy_utf8(group_bytes(hay@, c@, i as int)),
{
    let bytes = group_slice(hay, c, i);
    lossy_string(bytes.as_slice())
}

/// The span of the whole match.
fn whole_span_of(c: &CaptureSpans) -> (r: (usize, usize))
    ensures
        r == whole_span(c@),
{
    if c.groups.len() > 0 {
        match c.groups[0] {
            Some(p) => p,
            None => (0, 0),
        }
    } else {
        (0, 0)
    }
}

/// Whether no byte of `b` is a comma.
pub open spec fn no_comma_bytes(b: Seq<u8>) -> bool {
    forall|i: int| 0 <= i < b.len() ==> #[trigger] b[i] != 44u8
}

/// What holds of a method name read from an ASCII method list: it is not
/// empty, it is ASCII text in upper case (`to_uppercase` leaves it as it
/// is), it holds no comma, and no quote or space stands at either end.
pub open spec fn clean_method(m: Seq<char>) -> bool {
    &&& m.len() > 0
    &&& is_ascii_text(m)
    &&& ascii_upper(m) == m
    &&& forall|i: int| 0 <= i < m.len() ==> #[trigger] m[i] != ','
    &&& !method_quotes().contains(m[0])
    &&& !method_quotes().contains(m.last())
}

proof fn lemma_quotes(c: char)
    ensures
        method_quotes().contains(c) <==> (c == '"' || c == '\'' || c == ' '),
{
    let q = method_quotes();
    if c == '"' {
        assert(q[0] == c);
    } else if c == '\'' {
        assert(q[1] == c);
    } else if c == ' ' {
        assert(q[2] == c);
    }
}

/// The character test that ASCII, comma-free text passes.
pub open spec fn ascii_no_comma(c: char) -> bool {
    (c as u32) < 128 && c != ','
}

proof fn lemma_clean_upper(t: Seq<char>)
    requires
        t.len() > 0,
        all_chars(t, |c: char| ascii_no_comma(c)),
        !method_quotes().contains(t[0]),
        !method_quotes().contains(t.last()),
    ensures
        clean_method(ascii_upper(t)),
{
    let u = ascii_upper(t);
    assert forall|i: int| 0 <= i < u.len() implies (#[trigger] u[i] as u32) < 128 && u[i] != ',' by {
        assert(ascii_no_comma(t[i]));
    }
    assert(ascii_upper(u) =~= u);
    lemma_quotes(t[0]);
    lemma_quotes(u[0]);
    lemma_quotes(t.last());
    lemma_quotes(u.last());
}

/// One method name from a piece of a method list.
fn method_from_piece(piece: &[u8]) -> (r: String)
    ensures
        r@ == method_of(piece@),
        is_ascii_bytes(piece@) && no_comma_bytes(piece@) && r@.len() > 0 ==> clean_method(r@),
{
    let chars = lossy_chars(piece);
    let quotes = ['"', '\'', ' '];
    let q = quotes.as_slice();
    assert(q@ == method_quotes());
    let trimmed = trim_in(&chars, q);
    let s = string_from_chars(trimmed.as_slice());
    let r = to_upper(s.as_str());
    proof {
        if is_ascii_bytes(piece@) && no_comma_bytes(piece@) {
            lemma_ascii_decode(piece@);
            let p = |c: char| ascii_no_comma(c);
            assert forall|i: int| 0 <= i < chars@.len() implies p(#[trigger] chars@[i]) by {
                assert(chars@[i] == piece@[i] as char);
                assert(piece@[i] < 128 && piece@[i] != 44u8);
            }
            lemma_strip_in_props(chars@, q@, p);
            if r@.len() > 0 {
                assert(is_ascii_text(s@)) by {
                    assert forall|i: int| 0 <= i < s@.len() implies (#[trigger] s@[i] as u32) < 128 by {
                        assert(p(trimmed@[i]));
                    }
                }
                lemma_clean_upper(trimmed@);
            }
        }
    }
    r
}

/// The method names of a `methods=[...]` list: split at commas, each piece
/// stripped of quotes and spaces and put in upper case, empty ones dropped.
/// From an ASCII list each name is clean: see [`clean_method`].
pub fn parse_methods(raw: &[u8]) -> (r: Vec<String>)
    ensures
        r@.map_values(|s: String| s@) == parse_methods_spec(raw@),
        is_ascii_bytes(raw@) ==> forall|i: int| 0 <= i < r@.len() ==> clean_method(#[trigger] r@[i]@),
{
    let mut out: Vec<String> = Vec::new();
    let mut cur: Vec<u8> = Vec::new();
    let ghost mut done: Seq<Seq<u8>> = Seq::empty();
    let mut i: usize = 0;
    while i < raw.len()
        invariant
            i <= raw@.len(),
            split_commas(raw@.take(i as int)) == done.push(cur@),
            out@.map_values(|s: String| s@) == methods_of(done),
            no_comma_bytes(cur@),
            is_ascii_bytes(raw@) ==> is_ascii_bytes(cur@),
            is_ascii_bytes(raw@) ==> forall|k: int| 0 <= k < out@.len() ==> clean_method(#[trigger] out@[k]@),
        decreases raw@.len() - i,
    {
        proof {
            assert(raw@.take(i + 1).drop_last() =~= raw@.take(i as int));
        }
        if raw[i] == 44u8 {
            let m = method_from_piece(cur.as_slice());
            proof {
                assert(done.push(cur@).drop_last() =~= done);
            }
            if m.as_str().is_empty() {
            } else {
                out.push(m);
            }
            proof {
                done = done.push(cur@);
            }
            cur = Vec::new();
        } else {
            let ghost before = cur@;
            cur.push(raw[i]);
            assert(cur@ == before.push(raw@[i as int]));
        }
        i = i + 1;
    }
    proof {
        assert(raw@.take(raw@.len() as int) =~= raw@);
    }
    let m = method_from_piece(cur.as_slice());
    proof {
        assert(done.push(cur@).drop_last() =~= done);
    }
    if !m.as_str().is_empty() {
        out.push(m);
    }
    out
}

/// Appends the routes of one `@app.route(...)` match to `out`.
fn push_py_entries(hay: &[u8], c: &CaptureSpans, repo: &str, file: &str, out: &mut Vec<RouteInfo>)
    ensures
        routes_view(final(out)@) == routes_view(old(out)@) + py_route_entries(hay@, c@, repo@, file@),
{
    let path = group_text(hay, c, 1);
    let raw = group_slice(hay, c, 2);
    let methods: Vec<String> = if raw.len() > 0 {
        parse_methods(raw.as_slice())
    } else {
        let mut v: Vec<String> = Vec::new();
        v.push("GET".to_owned());
        v
    };
    let ghost mviews = methods@.map_values(|s: String| s@);
    assert(mviews == (if raw@.len() > 0 { parse_methods_spec(raw@) } else { seq!["GET"@] }));
    let handler = group_text(hay, c, 3);
    let span = whole_span_of(c);
    let ghost base = routes_view(out@);
    let ghost entries = py_route_entries(hay@, c@, repo@, file@);
    let mut j: usize = 0;
    while j < methods.len()
        invariant
            j <= methods@.len(),
            mviews == methods@.map_values(|s: String| s@),
            entries.len() == mviews.len(),
            forall|k: int| 0 <= k < mviews.len() ==> #[trigger] entries[k] == (RouteView {
                id: None,
                repo: repo@,
                file: file@,
                method: mviews[k],
                path: path@,
                handler: Some(handler@),
                start_byte: span.0,
                end_byte: span.1,
            }),
            routes_view(out@) == base + entries.take(j as int),
        decreases methods@.len() - j,
    {
        let r = RouteInfo {
            id: None,
            repo: repo.to_owned(),
            file: file.to_owned(),
            method: methods[j].clone(),
            path: path.clone(),
            handler: Some(handler.clone()),
            start_byte: span.0,
            end_byte: span.1,
        };
        proof {
            assert(r@ == entries[j as int]);
            lemma_routes_view_push(out@, r);
            assert(entries.take(j + 1) =~= entries.take(j as int).push(entries[j as int]));
        }
        out.push(r);
        j = j + 1;
    }
    assert(entries.take(methods@.len() as int) =~= entries);
}

/// The routes of `@app.route(...)` matches over `hay`, one per listed method,
/// in match order.
pub fn python_routes_from_captures(hay: &[u8], caps: &Vec<CaptureSpans>, repo: &str, file: &str) -> (r: Vec<RouteInfo>)
    ensures
        routes_view(r@) == py_routes(hay@, captures_view(caps@), repo@, file@),
{
    let mut out: Vec<RouteInfo> = Vec::new();
    let mut i: usize = 0;
    while i < caps.len()
        invariant
            i <= caps@.len(),
            routes_view(out@) == py_routes(hay@, captures_view(caps@.take(i as int)), repo@, file@),
        decreases caps@.len() - i,
    {
        proof {
            assert(captures_view(caps@.take(i + 1)).drop_last() =~= captures_view(caps@.take(i as int)));
        }
        push_py_entries(hay, &caps[i], repo, file, &mut out);
        i = i + 1;
    }
    proof {
        assert(caps@.take(caps@.len() as int) =~= caps@);
    }
    out
}

/// Whether group `i` of a match took part.
fn has_group(c: &CaptureSpans, i: usize) -> (r: bool)
    ensures
        r == (group(c@, i as int) is Some),
{
    i < c.groups.len() && c.groups[i].is_some()
}

/// The routes of matches whose groups are method, path and handler, the
/// method put in upper case, in match order; where `inline_ok`, a match
/// without a handler name gives a route without one.
pub fn method_routes_from_captures(hay: &[u8], caps: &Vec<CaptureSpans>, repo: &str, file: &str, inline_ok: bool) -> (r: Vec<RouteInfo>)
    ensures
        routes_view(r@) == method_routes(hay@, captures_view(caps@), repo@, file@, inline_ok),
{
    let mut out: Vec<RouteInfo> = Vec::new();
    let mut i: usize = 0;
    while i < caps.len()
        invariant
            i <= caps@.len(),
            routes_view(out@) == method_routes(hay@, captures_view(caps@.take(i as int)), repo@, file@, inline_ok),
        decreases caps@.len() - i,
    {
        let c = &caps[i];
        let raw_method = group_text(hay, c, 1);
        let method = to_upper(raw_method.as_str());
        let path = group_text(hay, c, 2);
        let handler = if inline_ok && !has_group(c, 3) {
            None
        } else {
            Some(group_text(hay, c, 3))
        };
        let span = whole_span_of(c);
        let r = RouteInfo {
            id: None,
            repo: repo.to_owned(),
            file: file.to_owned(),
            method,
            path,
            handler,
            start_byte: span.0,
            end_byte: span.1,
        };
        proof {
            assert(r@ == method_route(hay@, caps@[i as int]@, repo@, file@, inline_ok));
            lemma_routes_view_push(out@, r);
            assert(method_routes(hay@, captures_view(caps@.take(i + 1)), repo@, file@, inline_ok) =~= method_routes(
                hay@,
                captures_view(caps@.take(i as int)),
                repo@,
                file@,
                inline_ok,
            ).push(method_route(hay@, caps@[i as int]@, repo@, file@, inline_ok)));
        }
        out.push(r);
        i = i + 1;
    }
    proof {
        assert(caps@.take(caps@.len() as int) =~= caps@);
    }
    out
}

/// The routes of Django `path(...)` matches, in match order: any method,
/// the route and the view.
pub fn django_routes_from_captures(hay: &[u8], caps: &Vec<CaptureSpans>, repo: &str, file: &str) -> (r: Vec<RouteInfo>)
    ensures
        routes_view(r@) == django_routes(hay@, captures_view(caps@), repo@, file@),
{
    let mut out: Vec<RouteInfo> = Vec::new();
    let mut i: usize = 0;
    while i < caps.len()
        invariant
            i <= caps@.len(),
            routes_view(out@) == django_routes(hay@, captures_view(caps@.take(i as int)), repo@, file@),
        decreases caps@.len() - i,
    {
        let c = &caps[i];
        let path = group_text(hay, c, 1);
        let handler = group_text(hay, c, 2);
        let span = whole_span_of(c);
        let r = RouteInfo {
            id: None,
            repo: repo.to_owned(),
            file: file.to_owned(),
            method: "ANY".to_owned(),
            path,
            handler: Some(handler),
            start_byte: span.0,
            end_byte: span.1,
        };
        proof {
            reveal_strlit("ANY");
            assert(r@ == django_route(hay@, caps@[i as int]@, repo@, file@));
            lemma_routes_view_push(out@, r);
            assert(django_routes(hay@, captures_view(caps@.take(i + 1)), repo@, file@) =~= django_routes(
                hay@,
                captures_view(caps@.take(i as int)),
                repo@,
                file@,
            ).push(django_route(hay@, caps@[i as int]@, repo@, file@)));
        }
        out.push(r);
        i = i + 1;
    }
    proof {
        assert(caps@.take(caps@.len() as int) =~= caps@);
    }
    out
}

/// The matches of `pattern` in `hay`.
fn matches_in(pattern: &str, hay: &[u8]) -> (r: Vec<CaptureSpans>)
    ensures
        captures_view(r@) == matches_of(pattern@, hay@),
        captures_ok(captures_view(r@), hay@.len()),
{
    match find_captures(pattern, hay) {
        Some(v) => v,
        None => {
            let v: Vec<CaptureSpans> = Vec::new();
            assert(captures_view(v@) =~= Seq::empty());
            v
        },
    }
}

/// The HTTP routes declared in a source file, each spanning its match in
/// the source; they come in at most three runs (route decorators, method
/// shorthands, Django entries), each in source order. `lang` is compared in lower
/// case: `python` reads route decorators, method shorthands and Django
/// `path(...)` entries,
/// `javascript` and `typescript` read Express-style calls; any other
/// language yields no route.
pub fn extract_routes(source: &[u8], lang: &str, repo: &str, file: &str) -> (r: Vec<RouteInfo>)
    ensures
        routes_view(r@) == extract_routes_spec(source@, lower_case(lang@), repo@, file@),
        is_ascii_text(lang@) ==> routes_view(r@) == extract_routes_spec(source@, ascii_lower(lang@), repo@, file@),
        forall|i: int| 0 <= i < r@.len() ==> (#[trigger] r@[i]).start_byte <= r@[i].end_byte && r@[i].end_byte
            <= source@.len(),
        exists|x: int, y: int| sorted_blocks(routes_view(r@), x, y),
{
    let lang = to_lower(lang);
    if str_eq(lang.as_str(), "python") {
        let caps = matches_in(PY_ROUTE_PATTERN, source);
        let mut results = python_routes_from_captures(source, &caps, repo, file);
        let short = matches_in(PY_SHORTHAND_PATTERN, source);
        let mut more = method_routes_from_captures(source, &short, repo, file, false);
        let paths = matches_in(DJANGO_PATTERN, source);
        let mut django = django_routes_from_captures(source, &paths, repo, file);
        let ghost a = routes_view(results@);
        let ghost b = routes_view(more@);
        let ghost c = routes_view(django@);
        results.append(&mut more);
        results.append(&mut django);
        assert(routes_view(results@) =~= a + b + c);
        proof {
            lemma_py_routes_spans(source@, captures_view(caps@), repo@, file@);
            lemma_method_routes_spans(source@, captures_view(short@), repo@, file@, false);
            lemma_django_routes_spans(source@, captures_view(paths@), repo@, file@);
            lemma_spans_concat(a, b, source@.len());
            lemma_spans_concat(a + b, c, source@.len());
            lemma_spans_of_view(results@, source@.len());
            lemma_py_routes_sorted(source@, captures_view(caps@), repo@, file@);
            lemma_method_routes_sorted(source@, captures_view(short@), repo@, file@, false);
            lemma_django_routes_sorted(source@, captures_view(paths@), repo@, file@);
            let all = routes_view(results@);
            assert(all.subrange(0, a.len() as int) =~= a);
            assert(all.subrange(a.len() as int, (a.len() + b.len()) as int) =~= b);
            assert(all.subrange((a.len() + b.len()) as int, all.len() as int) =~= c);
            assert(sorted_blocks(all, a.len() as int, (a.len() + b.len()) as int));
        }
        results
    } else if str_eq(lang.as_str(), "javascript") || str_eq(lang.as_str(), "typescript") {
        let caps = matches_in(JS_ROUTE_PATTERN, source);
        let rs = method_routes_from_captures(source, &caps, repo, file, true);
        proof {
            lemma_method_routes_spans(source@, captures_view(caps@), repo@, file@, true);
            lemma_spans_of_view(rs@, source@.len());
            lemma_method_routes_sorted(source@, captures_view(caps@), repo@, file@, true);
            let all = routes_view(rs@);
            assert(all.subrange(0, all.len() as int) =~= all);
            assert(starts_sorted(all.subrange(all.len() as int, all.len() as int)));
            assert(sorted_blocks(all, all.len() as int, all.len() as int));
        }
        rs
    } else {
        let v: Vec<RouteInfo> = Vec::new();
        assert(routes_view(v@) =~= Seq::empty());
        assert(sorted_blocks(routes_view(v@), 0, 0));
        v
    }
}

} // verus!
