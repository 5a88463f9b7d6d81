use rustdex::model::Symbol;
use rustdex::search::{
    rank_symbols, route_search_query, symbol_search_query, symbol_source_text, SourceError, SqlParam,
};

fn sym(name: &str, file: &str) -> Symbol {
    Symbol {
        id: None,
        repo: "r".to_string(),
        file: file.to_string(),
        name: name.to_string(),
        kind: "function".to_string(),
        start_byte: 0,
        end_byte: 1,
        signature: None,
        docstring: None,
        embedding: None,
    }
}

fn text_param(p: &SqlParam) -> Option<&str> {
    match p {
        SqlParam::Text(s) => Some(s.as_str()),
        SqlParam::Integer(_) => None,
    }
}

fn int_param(p: &SqlParam) -> Option<i64> {
    match p {
        SqlParam::Integer(i) => Some(*i),
        SqlParam::Text(_) => None,
    }
}

#[test]
fn ranking_puts_shorter_names_first_and_keeps_ties_in_order() {
    let all = vec![sym("parse_all", "a"), sym("run", "b"), sym("go", "c"), sym("fun", "d"), sym("main", "e")];
    let r = rank_symbols(all, 10);
    let names: Vec<(&str, &str)> = r.iter().map(|s| (s.name.as_str(), s.file.as_str())).collect();
    assert_eq!(names, vec![("go", "c"), ("run", "b"), ("fun", "d"), ("main", "e"), ("parse_all", "a")]);
}

#[test]
fn ranking_cuts_to_the_limit() {
    let all = vec![sym("abcd", "a"), sym("ab", "b"), sym("abc", "c")];
    let r = rank_symbols(all, 2);
    assert_eq!(r.len(), 2);
    assert_eq!(r[0].name, "ab");
    assert_eq!(r[1].name, "abc");
    assert!(rank_symbols(vec![sym("x", "f")], 0).is_empty());
    assert!(rank_symbols(Vec::new(), 5).is_empty());
}

#[test]
fn ranking_measures_names_in_bytes() {
    let all = vec![sym("éé", "a"), sym("abc", "b")];
    let r = rank_symbols(all, 5);
    assert_eq!(r[0].name, "abc");
    assert_eq!(r[1].name, "éé");
}

#[test]
fn symbol_query_without_kind() {
    let q = symbol_search_query("user", None, 20);
    assert_eq!(
        q.sql,
        "SELECT id, repo, file, name, kind, start_byte, end_byte, signature, docstring FROM symbols WHERE name LIKE ? LIMIT ?"
    );
    assert_eq!(q.params.len(), 2);
    assert_eq!(text_param(&q.params[0]), Some("%user%"));
    assert_eq!(int_param(&q.params[1]), Some(20));
}

#[test]
fn symbol_query_with_kind() {
    let q = symbol_search_query("auth", Some("class"), 5);
    assert!(q.sql.ends_with("WHERE name LIKE ? AND kind = ? LIMIT ?"));
    assert_eq!(q.params.len(), 3);
    assert_eq!(text_param(&q.params[1]), Some("class"));
    assert_eq!(int_param(&q.params[2]), Some(5));
}

#[test]
fn route_query_uppercases_method_and_wraps_path() {
    let q = route_search_query("web", Some("post"), Some("/users"), 50);
    assert_eq!(
        q.sql,
        "SELECT id, repo, file, method, path, handler, start_byte, end_byte FROM routes WHERE repo = ? AND method = ? AND path LIKE ? LIMIT ?"
    );
    assert_eq!(text_param(&q.params[0]), Some("web"));
    assert_eq!(text_param(&q.params[1]), Some("POST"));
    assert_eq!(text_param(&q.params[2]), Some("%/users%"));
    assert_eq!(int_param(&q.params[3]), Some(50));
    let bare = route_search_query("web", None, None, 7);
    assert!(bare.sql.ends_with("WHERE repo = ? LIMIT ?"));
    assert_eq!(bare.params.len(), 2);
}

#[test]
fn symbol_source_reads_the_span() {
    let content = b"fn main() {}\n";
    match symbol_source_text(content, 3, 7) {
        Ok(s) => assert_eq!(s, "main"),
        Err(_) => panic!("span is in bounds"),
    }
    match symbol_source_text(b"a\xffb", 0, 3) {
        Ok(s) => assert_eq!(s, "a\u{FFFD}b"),
        Err(_) => panic!("span is in bounds"),
    }
}

#[test]
fn symbol_source_rejects_spans_outside_the_file() {
    assert!(matches!(symbol_source_text(b"abc", 3, 3), Err(SourceError::OutOfBounds)));
    assert!(matches!(symbol_source_text(b"abc", 0, 4), Err(SourceError::OutOfBounds)));
    assert!(matches!(symbol_source_text(b"", 0, 0), Err(SourceError::OutOfBounds)));
}
