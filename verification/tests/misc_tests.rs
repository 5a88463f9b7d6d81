use rustdex::indexing::{exclusion_globs, is_excluded_dir, calculate_hash, embedding_text, is_skipped_extension, EntryStep, FileStep, IndexSession, WalkEntry};
use rustdex::model::{db_file_name, registered_name, registry_key, repo_record, Storage, Symbol, Timestamp};
use rustdex::syntax::Parser;
use rustdex::text::{first_line_of, str_eq, trim_white_space};
use rustdex::tools::{SearchRoutesArgs, SearchSymbolsArgs, SemanticSearchArgs};
use rustdex::watch::{is_file_change, watch_step, ChangeKind, WatchStep};
use std::path::PathBuf;

#[test]
fn hash_is_lowercase_hex_sha256() {
    assert_eq!(calculate_hash(""), "e3b0c44298fc1c149afbf4c8996fb92427ae41e4649b934ca495991b7852b855");
    assert_eq!(calculate_hash("abc"), "ba7816bf8f01cfea414140de5dae2223b00361a396177a9cb410ff61f20015ad");
}

#[test]
fn binary_extensions_are_skipped() {
    assert!(is_skipped_extension("png"));
    assert!(is_skipped_extension("woff2"));
    assert!(is_skipped_extension("pyc"));
    assert!(!is_skipped_extension("rs"));
    assert!(!is_skipped_extension("PNG"));
    assert!(!is_skipped_extension(""));
}

#[test]
fn session_entry_decisions() {
    let s = IndexSession::new(None, "folder".to_string());
    assert_eq!(s.repo_name, "folder");
    assert_eq!(s.symbol_count, 0);
    assert!(matches!(s.on_entry(&WalkEntry::Error), EntryStep::Warn));
    assert!(matches!(s.on_entry(&WalkEntry::NotAFile), EntryStep::Skip));
    let img = WalkEntry::File { ext: "png".to_string() };
    assert!(matches!(s.on_entry(&img), EntryStep::Skip));
    let src = WalkEntry::File { ext: "py".to_string() };
    assert!(matches!(s.on_entry(&src), EntryStep::Read));
    let named = IndexSession::new(Some("given".to_string()), "folder".to_string());
    assert_eq!(named.repo_name, "given");
}

#[test]
fn unchanged_files_are_left_alone() {
    let s = IndexSession::new(Some("r".to_string()), "f".to_string());
    let content = b"def f():\n    pass\n";
    let hash = match s.on_file(content, None) {
        FileStep::Changed { source, hash } => {
            assert_eq!(source, "def f():\n    pass\n");
            hash
        }
        FileStep::Unchanged => panic!("no hash was recorded"),
    };
    assert!(matches!(s.on_file(content, Some(hash.as_str())), FileStep::Unchanged));
    assert!(matches!(s.on_file(b"other", Some(hash.as_str())), FileStep::Changed { .. }));
}

#[test]
fn extraction_counts_symbols() {
    let mut s = IndexSession::new(Some("r".to_string()), "f".to_string());
    let mut p = Parser::new().ok().unwrap();
    let u = s.extract(&mut p, "def a():\n    pass\n\ndef b():\n    pass\n", "py", "m.py").ok().unwrap();
    assert_eq!(u.symbols.len(), 2);
    assert!(u.routes.is_empty());
    assert_eq!(s.symbol_count, 2);
    let u2 = s.extract(&mut p, "class C:\n    pass\n", "py", "c.py").ok().unwrap();
    assert_eq!(u2.symbols.len(), 1);
    assert_eq!(s.symbol_count, 3);
    let u3 = s.extract(&mut p, "whatever", "txt", "x.txt").ok().unwrap();
    assert!(u3.symbols.is_empty());
    assert_eq!(s.symbol_count, 3);
}

#[test]
fn embedding_text_joins_signature_docstring_and_name() {
    let s = Symbol {
        id: Some(3),
        repo: "r".to_string(),
        file: "f".to_string(),
        name: "login".to_string(),
        kind: "function".to_string(),
        start_byte: 0,
        end_byte: 5,
        signature: Some("def login(user)".to_string()),
        docstring: None,
        embedding: None,
    };
    assert_eq!(embedding_text(&s), "def login(user)\n\nlogin");
}

#[test]
fn database_names_are_lowercase() {
    assert_eq!(db_file_name("MyRepo"), "myrepo.db");
    assert_eq!(registry_key("MyRepo"), "myrepo");
    assert_eq!(db_file_name("MYREPO"), db_file_name("myrepo"));
    let st = Storage { base_dir: PathBuf::from("/tmp/idx") };
    let p = st.get_db_path("Web-App");
    assert_eq!(p.dir, PathBuf::from("/tmp/idx"));
    assert_eq!(p.file, "web-app.db");
    assert_eq!(p.dir.join(&p.file), PathBuf::from("/tmp/idx/web-app.db"));
    assert_eq!(st.get_db_path("web-app").file, p.file);
    let out = st.get_db_path("../Up/x");
    assert_eq!(out.file, ".._up_x.db");
    assert_eq!(out.dir.join(&out.file).parent(), Some(PathBuf::from("/tmp/idx").as_path()));
    assert_eq!(db_file_name("a\\b"), "a_b.db");
}

#[test]
fn watched_folders_keep_their_registered_name() {
    let repos = vec![
        repo_record("api".to_string(), "/src/api".to_string(), "/i/api.db".to_string(), None),
        repo_record("web".to_string(), "/src/web".to_string(), "/i/web.db".to_string(), None),
        repo_record("web2".to_string(), "/src/web".to_string(), "/i/web2.db".to_string(), None),
    ];
    assert_eq!(registered_name(&repos, "/src/web"), Some("web".to_string()));
    assert_eq!(registered_name(&repos, "/src/none"), None);
}

#[test]
fn repo_records_read_the_registry_time() {
    let r = repo_record(
        "web".to_string(),
        "/src/web".to_string(),
        "/idx/web.db".to_string(),
        Some("2024-03-05 14:07:09".to_string()),
    );
    assert_eq!(r.name, "web");
    assert_eq!(r.root_path, "/src/web");
    assert_eq!(r.db_path, "/idx/web.db");
    assert_eq!(
        r.last_indexed,
        Some(Timestamp { year: 2024, month: 3, day: 5, hour: 14, minute: 7, second: 9, nanosecond: 0 })
    );
    assert_eq!(r.symbol_count, None);
    let leap = repo_record("w".to_string(), "a".to_string(), "b".to_string(), Some("2016-12-31 23:59:60".to_string()));
    let t = leap.last_indexed.unwrap();
    assert_eq!((t.second, t.nanosecond), (59, 1_000_000_000));
    let bad = repo_record("w".to_string(), "a".to_string(), "b".to_string(), Some("yesterday".to_string()));
    assert_eq!(bad.last_indexed, None);
    let none = repo_record("w".to_string(), "a".to_string(), "b".to_string(), None);
    assert_eq!(none.last_indexed, None);
}

#[test]
fn routes_are_stored_while_indexing() {
    let mut s = IndexSession::new(Some("r".to_string()), "f".to_string());
    let mut p = Parser::new().ok().unwrap();
    let u = s.extract(&mut p, "@app.get('/items')\ndef items():\n    return []\n", "py", "app.py").ok().unwrap();
    assert_eq!(u.routes.len(), 1);
    assert_eq!(u.routes[0].method, "GET");
    assert_eq!(u.routes[0].path, "/items");
    assert_eq!(u.routes[0].handler.as_deref(), Some("items"));
    assert_eq!(u.routes[0].repo, "r");
    assert_eq!(u.routes[0].file, "app.py");
    let js = s.extract(&mut p, "app.post('/x', (req, res) => res.send(1));", "js", "s.js").ok().unwrap();
    assert_eq!(js.routes.len(), 1);
    assert_eq!(js.routes[0].method, "POST");
    assert_eq!(js.routes[0].handler, None);
}

#[test]
fn watcher_reacts_to_file_changes_only() {
    assert!(is_file_change(&ChangeKind::Create));
    assert!(is_file_change(&ChangeKind::Modify));
    assert!(is_file_change(&ChangeKind::Remove));
    assert!(!is_file_change(&ChangeKind::Access));
    assert!(!is_file_change(&ChangeKind::Any));
    assert!(!is_file_change(&ChangeKind::Other));
    assert!(matches!(watch_step(None), WatchStep::ReportError));
    assert!(matches!(watch_step(Some(ChangeKind::Modify)), WatchStep::Reindex));
    assert!(matches!(watch_step(Some(ChangeKind::Access)), WatchStep::Ignore));
}

#[test]
fn tool_limits_default() {
    let a = SearchSymbolsArgs { query: "q".to_string(), repo: None, kind: None, limit: None };
    assert_eq!(a.effective_limit(), 20);
    let b = SemanticSearchArgs { query: "q".to_string(), repo: None, limit: None };
    assert_eq!(b.effective_limit(), 10);
    let c = SearchRoutesArgs { repo: "r".to_string(), method: None, path_contains: None, limit: None };
    assert_eq!(c.effective_limit(), 50);
    let d = SearchRoutesArgs { repo: "r".to_string(), method: None, path_contains: None, limit: Some(3) };
    assert_eq!(d.effective_limit(), 3);
}

#[test]
fn text_helpers() {
    assert!(str_eq("abc", "abc"));
    assert!(!str_eq("abc", "abd"));
    assert!(!str_eq("ab", "abc"));
    let t: Vec<char> = " \u{3000}x y\t\n".chars().collect();
    assert_eq!(trim_white_space(&t).into_iter().collect::<String>(), "x y");
    let l: Vec<char> = "first\r\nsecond".chars().collect();
    assert_eq!(first_line_of(&l).into_iter().collect::<String>(), "first");
    let l2: Vec<char> = "only\r".chars().collect();
    assert_eq!(first_line_of(&l2).into_iter().collect::<String>(), "only\r");
}

#[test]
fn cache_and_vendor_directories_are_excluded() {
    for d in [".git", "node_modules", "__pycache__", ".venv", "target", "third-party", "dist", ".worktree"] {
        assert!(is_excluded_dir(d), "{}", d);
    }
    assert!(!is_excluded_dir("src"));
    assert!(!is_excluded_dir("Target"));
    assert!(!is_excluded_dir("builds"));
}

#[test]
fn ignore_patterns_become_exclusions() {
    let globs = exclusion_globs(&vec!["*.log".to_string(), "build/".to_string()]);
    assert_eq!(globs, vec!["!*.log".to_string(), "!build/".to_string()]);
    assert!(exclusion_globs(&Vec::new()).is_empty());
}
