use rustdex::model::Symbol;
use rustdex::search::symbol_source_text;
use rustdex::syntax::{extract_name, get_symbol_kind, language_name, symbols_from_tree, NodeEntry, Parser};

fn parse(src: &str, ext: &str) -> Vec<Symbol> {
    let mut p = Parser::new().ok().unwrap();
    match p.parse_file(src, ext, "repo", "file") {
        Ok(v) => v,
        Err(_) => panic!("parse failed"),
    }
}

#[test]
fn symbol_kinds_per_language() {
    assert_eq!(get_symbol_kind("python", "function_definition"), Some("function"));
    assert_eq!(get_symbol_kind("python", "decorated_definition"), Some("decorated"));
    assert_eq!(get_symbol_kind("typescript", "interface_declaration"), Some("class"));
    assert_eq!(get_symbol_kind("go", "method_declaration"), Some("method"));
    assert_eq!(get_symbol_kind("rust", "impl_item"), Some("class"));
    assert_eq!(get_symbol_kind("elixir", "defp"), Some("function"));
    assert_eq!(get_symbol_kind("ruby", "module"), Some("class"));
    assert_eq!(get_symbol_kind("vue", "element"), None);
    assert_eq!(get_symbol_kind("rust", "function_definition"), None);
}

#[test]
fn python_functions_classes_and_docstrings() {
    let src = "class Greeter:\n    \"\"\"Says hello.\"\"\"\n    def hello(self, who):\n        return who\n";
    let syms = parse(src, "py");
    assert_eq!(syms.len(), 2);
    assert_eq!(syms[0].name, "Greeter");
    assert_eq!(syms[0].kind, "class");
    assert_eq!(syms[0].start_byte, 0);
    assert_eq!(syms[0].end_byte, src.len() - 1);
    assert_eq!(syms[0].signature.as_deref(), Some("class Greeter"));
    assert_eq!(syms[0].docstring.as_deref(), Some("Says hello."));
    assert_eq!(syms[0].repo, "repo");
    assert_eq!(syms[0].file, "file");
    assert_eq!(syms[0].id, None);
    assert_eq!(syms[1].name, "hello");
    assert_eq!(syms[1].kind, "function");
    assert_eq!(syms[1].signature.as_deref(), Some("def hello(self, who)"));
    assert_eq!(syms[1].docstring, None);
}

#[test]
fn rust_sample_repository() {
    let src = "/// Greets the world.\npub fn greet_world() {\n    println!(\"Hello, world!\");\n}\n\nstruct User {\n    name: String,\n}\n\nimpl User {\n    fn new(name: String) -> Self {\n        Self { name }\n    }\n}\n";
    let syms = parse(src, "rs");
    let names: Vec<(&str, &str)> = syms.iter().map(|s| (s.name.as_str(), s.kind.as_str())).collect();
    assert_eq!(names, vec![("greet_world", "function"), ("User", "class"), ("User", "class"), ("new", "function")]);
    assert_eq!(syms[0].signature.as_deref(), Some("pub fn greet_world()"));
    assert_eq!(syms[3].signature.as_deref(), Some("fn new(name: String) -> Self"));
    assert!(syms.iter().all(|s| s.docstring.is_none()));
}

#[test]
fn unknown_extensions_yield_nothing() {
    assert!(parse("anything at all", "txt").is_empty());
    assert!(parse("", "md").is_empty());
}

#[test]
fn javascript_functions() {
    let src = "function add(a, b) {\n  return a + b;\n}\nclass Box {}\n";
    let syms = parse(src, "js");
    assert_eq!(syms.len(), 2);
    assert_eq!(syms[0].name, "add");
    assert_eq!(syms[0].signature.as_deref(), Some("function add(a, b)"));
    assert_eq!(syms[1].name, "Box");
    assert_eq!(syms[1].kind, "class");
}

fn entry(kind: &str, field: Option<&str>, start: usize, end: usize, depth: u32) -> NodeEntry {
    NodeEntry {
        kind: kind.to_string(),
        field: field.map(|f| f.to_string()),
        start_byte: start,
        end_byte: end,
        depth,
    }
}

#[test]
fn symbols_from_hand_built_entries() {
    let src = b"def f():\n    'doc'\n";
    let es = vec![
        entry("module", None, 0, 19, 0),
        entry("function_definition", None, 0, 18, 1),
        entry("def", None, 0, 3, 2),
        entry("identifier", Some("name"), 4, 5, 2),
        entry("block", Some("body"), 13, 18, 2),
        entry("expression_statement", None, 13, 18, 3),
        entry("string", None, 13, 18, 4),
    ];
    let syms = symbols_from_tree(&es, src, "python", "r", "f.py");
    assert_eq!(syms.len(), 1);
    assert_eq!(syms[0].name, "f");
    assert_eq!(syms[0].signature.as_deref(), Some("def f()"));
    assert_eq!(syms[0].docstring.as_deref(), Some("doc"));
    assert_eq!(syms[0].start_byte, 0);
    assert_eq!(syms[0].end_byte, 18);
}

#[test]
fn name_field_comes_first_and_bad_spans_give_no_name() {
    let src = b"fn g() {}";
    let es = vec![
        entry("source_file", None, 0, 9, 0),
        entry("function_item", None, 0, 9, 1),
        entry("type_identifier", None, 0, 2, 2),
        entry("field_name_only", Some("name"), 3, 4, 2),
        entry("function_item", None, 0, 9, 1),
        entry("identifier", None, 3, 40, 2),
    ];
    let syms = symbols_from_tree(&es, src, "rust", "r", "g.rs");
    assert_eq!(syms.len(), 1);
    assert_eq!(syms[0].name, "g");
    assert_eq!(syms[0].signature.as_deref(), Some("fn g() {}"));
    assert_eq!(syms[0].docstring, None);
}

#[test]
fn declarator_chain_names_c_functions() {
    let src = b"int add(int a) { return a; }";
    let es = vec![
        entry("translation_unit", None, 0, 28, 0),
        entry("function_definition", None, 0, 28, 1),
        entry("primitive_type", Some("type"), 0, 3, 2),
        entry("function_declarator", Some("declarator"), 4, 14, 2),
        entry("identifier", Some("declarator"), 4, 7, 3),
        entry("parameter_list", Some("parameters"), 7, 14, 3),
    ];
    assert_eq!(extract_name(&es, 1, src), Some("add".to_string()));
    assert_eq!(extract_name(&es, 9, src), None);
}

#[test]
fn c_and_java_functions_are_named() {
    let c = parse("int add(int a, int b) { return a + b; }\n", "c");
    assert_eq!(c.len(), 1);
    assert_eq!(c[0].name, "add");
    assert_eq!(c[0].kind, "function");
    let java = parse("class Person {\n  public String getName() { return name; }\n}\n", "java");
    let names: Vec<(&str, &str)> = java.iter().map(|s| (s.name.as_str(), s.kind.as_str())).collect();
    assert_eq!(names, vec![("Person", "class"), ("getName", "method")]);
}

#[test]
fn vue_scripts_give_symbols() {
    let src = "<template><div/></template>\n<script>\nexport function greet() { return 1; }\n</script>\n";
    let syms = parse(src, "vue");
    assert_eq!(syms.len(), 1);
    assert_eq!(syms[0].name, "greet");
    assert_eq!(syms[0].kind, "function");
    assert_eq!(&src[syms[0].start_byte..syms[0].end_byte], "function greet() { return 1; }");
}

#[test]
fn language_names_of_extensions() {
    assert_eq!(language_name("py"), Some("python"));
    assert_eq!(language_name("tsx"), Some("typescript"));
    assert_eq!(language_name("cc"), Some("cpp"));
    assert_eq!(language_name("txt"), None);
}

#[test]
fn read_back_source_gives_the_signature() {
    let src = "def area(w, h):\n    return w * h\n";
    let syms = parse(src, "py");
    assert_eq!(syms.len(), 1);
    let text = match symbol_source_text(src.as_bytes(), syms[0].start_byte, syms[0].end_byte) {
        Ok(t) => t,
        Err(_) => panic!("span out of bounds"),
    };
    let first = text.lines().next().unwrap().trim_end_matches('{').trim_end_matches(':').trim();
    assert_eq!(syms[0].signature.as_deref(), Some(first));
    assert!(text.contains(&syms[0].name));
}

#[test]
fn function_values_are_named_by_their_holder() {
    let syms = parse("const add = (a, b) => a + b;\n[1].map(x => x);\nfunction f() {}\n", "js");
    let names: Vec<(&str, &str)> = syms.iter().map(|s| (s.name.as_str(), s.kind.as_str())).collect();
    assert_eq!(names, vec![("add", "function"), ("f", "function")]);
}

fn assert_shaped(src: &str, syms: &[Symbol]) {
    for s in syms {
        assert!(s.start_byte <= s.end_byte && s.end_byte <= src.len());
        assert!(src[s.start_byte..s.end_byte].contains(&s.name) || s.kind == "function");
    }
    for k in 0..syms.len() {
        for l in k + 1..syms.len() {
            let (a, b) = (&syms[k], &syms[l]);
            assert!(a.start_byte <= b.start_byte);
            assert!(b.end_byte <= a.end_byte || a.end_byte <= b.start_byte);
        }
    }
}

#[test]
fn symbols_nest_in_source_order() {
    let cases = [
        ("class A:\n    # note\n    def f(self):\n        def g():\n            pass\n    def h(self): pass\n\n\n", "py"),
        ("struct S;\nimpl S {\n    fn a(&self) {}\n    fn b( {}\n}\n// end\n", "rs"),
        ("int add(int a) { return a; }\nstruct P { int x; };\n/* c */\n", "c"),
        ("class A { m() { const f = () => 1; } }\nfunction g() {}\n", "ts"),
        ("package main\nfunc main() {}\ntype T struct{}\n", "go"),
    ];
    for (src, ext) in cases {
        let syms = parse(src, ext);
        assert!(!syms.is_empty());
        assert_shaped(src, &syms);
    }
}
