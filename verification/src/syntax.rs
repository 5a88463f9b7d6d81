//! Symbol extraction from tree-sitter syntax trees.
//!
//! A parsed file is handled as the list of its syntax-tree nodes in
//! pre-order, each with its kind, the field of its parent it stands in, its
//! byte span and its depth below the root.

use tree_sitter::Parser as TsParser;
use vstd::prelude::*;
use vstd::slice::slice_subrange;
use vstd::utf8::{decode_utf8, encode_utf8, valid_utf8};
use crate::model::{Symbol, SymbolView, opt_view};
use crate::text::{
    decode_utf8_chars, decode_utf8_string, is_white_space, lemma_trim_ws_ends, first_line, first_line_of, str_eq, string_from_chars, strip_end_in,
    strip_in, trim_end_in, trim_in, trim_white_space, trim_ws,
};

verus! {

/// `TsParser`, carried through unchanged.
#[verifier::external_type_specification]
#[verifier::external_body]
pub struct ExTsParser(TsParser);

/// `tree_sitter::Language`, carried through unchanged.
#[verifier::external_type_specification]
#[verifier::external_body]
pub struct ExTsLanguage(tree_sitter::Language);

/// Calls `tree_sitter::Parser::new`; nothing is stated of the result.
#[verifier::external_body]
fn ts_parser_new() -> TsParser {
    TsParser::new()
}

/// The grammar of `tree_sitter_python` (`tree_sitter_python::LANGUAGE`), tagged as [`Grammar::Python`].
#[verifier::external_body]
fn lang_python() -> (r: GrammarHandle)
    ensures
        r.grammar() == Grammar::Python,
{
    GrammarHandle { language: tree_sitter_python::LANGUAGE.into(), grammar: Grammar::Python }
}

/// The grammar of `tree_sitter_javascript` (`tree_sitter_javascript::LANGUAGE`), tagged as [`Grammar::JavaScript`].
#[verifier::external_body]
fn lang_javascript() -> (r: GrammarHandle)
    ensures
        r.grammar() == Grammar::JavaScript,
{
    GrammarHandle { language: tree_sitter_javascript::LANGUAGE.into(), grammar: Grammar::JavaScript }
}

/// The TypeScript grammar of `tree_sitter_typescript` (`tree_sitter_typescript::LANGUAGE_TYPESCRIPT`), tagged as [`Grammar::TypeScript`].
#[verifier::external_body]
fn lang_typescript() -> (r: GrammarHandle)
    ensures
        r.grammar() == Grammar::TypeScript,
{
    GrammarHandle { language: tree_sitter_typescript::LANGUAGE_TYPESCRIPT.into(), grammar: Grammar::TypeScript }
}

/// The TSX grammar of `tree_sitter_typescript` (`tree_sitter_typescript::LANGUAGE_TSX`), tagged as [`Grammar::Tsx`].
#[verifier::external_body]
fn lang_tsx() -> (r: GrammarHandle)
    ensures
        r.grammar() == Grammar::Tsx,
{
    GrammarHandle { language: tree_sitter_typescript::LANGUAGE_TSX.into(), grammar: Grammar::Tsx }
}

/// The grammar of `tree_sitter_go` (`tree_sitter_go::LANGUAGE`), tagged as [`Grammar::Go`].
#[verifier::external_body]
fn lang_go() -> (r: GrammarHandle)
    ensures
        r.grammar() == Grammar::Go,
{
    GrammarHandle { language: tree_sitter_go::LANGUAGE.into(), grammar: Grammar::Go }
}

/// The grammar of `tree_sitter_rust` (`tree_sitter_rust::LANGUAGE`), tagged as [`Grammar::Rust`].
#[verifier::external_body]
fn lang_rust() -> (r: GrammarHandle)
    ensures
        r.grammar() == Grammar::Rust,
{
    GrammarHandle { language: tree_sitter_rust::LANGUAGE.into(), grammar: Grammar::Rust }
}

/// The grammar of `tree_sitter_java` (`tree_sitter_java::LANGUAGE`), tagged as [`Grammar::Java`].
#[verifier::external_body]
fn lang_java() -> (r: GrammarHandle)
    ensures
        r.grammar() == Grammar::Java,
{
    GrammarHandle { language: tree_sitter_java::LANGUAGE.into(), grammar: Grammar::Java }
}

/// The PHP grammar of `tree_sitter_php` (`tree_sitter_php::LANGUAGE_PHP`), tagged as [`Grammar::Php`].
#[verifier::external_body]
fn lang_php() -> (r: GrammarHandle)
    ensures
        r.grammar() == Grammar::Php,
{
    GrammarHandle { language: tree_sitter_php::LANGUAGE_PHP.into(), grammar: Grammar::Php }
}

/// The grammar of `tree_sitter_c_sharp` (`tree_sitter_c_sharp::LANGUAGE`), tagged as [`Grammar::CSharp`].
#[verifier::external_body]
fn lang_c_sharp() -> (r: GrammarHandle)
    ensures
        r.grammar() == Grammar::CSharp,
{
    GrammarHandle { language: tree_sitter_c_sharp::LANGUAGE.into(), grammar: Grammar::CSharp }
}

/// The grammar of `tree_sitter_c` (`tree_sitter_c::LANGUAGE`), tagged as [`Grammar::C`].
#[verifier::external_body]
fn lang_c() -> (r: GrammarHandle)
    ensures
        r.grammar() == Grammar::C,
{
    GrammarHandle { language: tree_sitter_c::LANGUAGE.into(), grammar: Grammar::C }
}

/// The grammar of `tree_sitter_cpp` (`tree_sitter_cpp::LANGUAGE`), tagged as [`Grammar::Cpp`].
#[verifier::external_body]
fn lang_cpp() -> (r: GrammarHandle)
    ensures
        r.grammar() == Grammar::Cpp,
{
    GrammarHandle { language: tree_sitter_cpp::LANGUAGE.into(), grammar: Grammar::Cpp }
}

/// The grammar of `tree_sitter_elixir` (`tree_sitter_elixir::LANGUAGE`), tagged as [`Grammar::Elixir`].
#[verifier::external_body]
fn lang_elixir() -> (r: GrammarHandle)
    ensures
        r.grammar() == Grammar::Elixir,
{
    GrammarHandle { language: tree_sitter_elixir::LANGUAGE.into(), grammar: Grammar::Elixir }
}

/// The grammar of `tree_sitter_ruby` (`tree_sitter_ruby::LANGUAGE`), tagged as [`Grammar::Ruby`].
#[verifier::external_body]
fn lang_ruby() -> (r: GrammarHandle)
    ensures
        r.grammar() == Grammar::Ruby,
{
    GrammarHandle { language: tree_sitter_ruby::LANGUAGE.into(), grammar: Grammar::Ruby }
}

/// The grammar of `tree_sitter_vue_next` (`tree_sitter_vue_next::LANGUAGE`), tagged as [`Grammar::Vue`].
#[verifier::external_body]
fn lang_vue() -> (r: GrammarHandle)
    ensures
        r.grammar() == Grammar::Vue,
{
    GrammarHandle { language: tree_sitter_vue_next::LANGUAGE.into(), grammar: Grammar::Vue }
}


/// The grammars that files are parsed with.
#[derive(Clone, Copy, Debug)]
pub enum Grammar {
    Python,
    JavaScript,
    TypeScript,
    Tsx,
    Go,
    Rust,
    Java,
    Php,
    CSharp,
    C,
    Cpp,
    Elixir,
    Ruby,
    Vue,
}

/// A tree-sitter grammar together with the [`Grammar`] it is. Its fields
/// are private; each grammar wrapper below makes the handle of one grammar
/// and states its tag, so the two agree.
pub struct GrammarHandle {
    language: tree_sitter::Language,
    grammar: Grammar,
}

impl GrammarHandle {
    /// Which grammar this is.
    pub closed spec fn grammar(&self) -> Grammar {
        self.grammar
    }

    /// The tree-sitter grammar of `g`.
    pub fn new(g: Grammar) -> (r: GrammarHandle)
        ensures
            r.grammar() == g,
    {
        match g {
            Grammar::Python => lang_python(),
            Grammar::JavaScript => lang_javascript(),
            Grammar::TypeScript => lang_typescript(),
            Grammar::Tsx => lang_tsx(),
            Grammar::Go => lang_go(),
            Grammar::Rust => lang_rust(),
            Grammar::Java => lang_java(),
            Grammar::Php => lang_php(),
            Grammar::CSharp => lang_c_sharp(),
            Grammar::C => lang_c(),
            Grammar::Cpp => lang_cpp(),
            Grammar::Elixir => lang_elixir(),
            Grammar::Ruby => lang_ruby(),
            Grammar::Vue => lang_vue(),
        }
    }
}

/// A node of a syntax tree, as one entry of the tree's nodes in pre-order:
/// its kind, the field of its parent it stands in, its byte span in the
/// source and its depth below the root (the root has depth 0).
pub struct NodeEntry {
    pub kind: String,
    pub field: Option<String>,
    pub start_byte: usize,
    pub end_byte: usize,
    pub depth: u32,
}

/// The mathematical content of a [`NodeEntry`].
pub ghost struct NodeEntryView {
    pub kind: Seq<char>,
    pub field: Option<Seq<char>>,
    pub start_byte: usize,
    pub end_byte: usize,
    pub depth: u32,
}

impl View for NodeEntry {
    type V = NodeEntryView;

    open spec fn view(&self) -> NodeEntryView {
        NodeEntryView {
            kind: self.kind@,
            field: opt_view(self.field),
            start_byte: self.start_byte,
            end_byte: self.end_byte,
            depth: self.depth,
        }
    }
}

/// The views of a list of node entries.
pub open spec fn entries_view(es: Seq<NodeEntry>) -> Seq<NodeEntryView> {
    es.map_values(|e: NodeEntry| e@)
}

/// Why a file could not be parsed.
pub enum ParseError {
    /// tree-sitter refused the grammar.
    Language,
    /// tree-sitter produced no tree.
    NoTree,
}

/// What tree-sitter makes of `source` with grammar `grammar`: the nodes of
/// the syntax tree in pre-order, or why there is none.
pub uninterp spec fn parsed_entries(grammar: Grammar, source: Seq<char>) -> Result<Seq<NodeEntryView>, ParseError>;

/// The view of a parse result.
pub open spec fn parse_result_view(r: Result<Vec<NodeEntry>, ParseError>) -> Result<Seq<NodeEntryView>, ParseError> {
    match r {
        Ok(v) => Ok(entries_view(v@)),
        Err(e) => Err(e),
    }
}

/// Whether entry `j` lies in the subtree of entry `i`: it comes after `i`,
/// and every entry from just after `i` up to `j` lies deeper than `i`.
pub open spec fn below(es: Seq<NodeEntryView>, i: int, j: int) -> bool {
    &&& 0 <= i < j < es.len()
    &&& forall|k: int| i < k <= j ==> #[trigger] es[k].depth > es[i].depth
}

/// The shape of a syntax tree listed in pre-order, over a source of `n`
/// bytes: the root comes first at depth 0 and every later node lies at
/// depth 1 or more, at most one deeper than the node before it; every span
/// has `start <= end <= n`; a node's span holds the spans of its subtree;
/// and a node outside another's subtree, coming after it, starts where the
/// other ends or later.
pub open spec fn tree_shaped(es: Seq<NodeEntryView>, n: nat) -> bool {
    &&& es.len() >= 1
    &&& es[0].depth == 0
    &&& forall|j: int| 1 <= j < es.len() ==> 1 <= #[trigger] es[j].depth <= es[j - 1].depth + 1
    &&& forall|j: int| 0 <= j < es.len() ==> #[trigger] es[j].start_byte <= es[j].end_byte && es[j].end_byte <= n
    &&& forall|i: int, j: int| #[trigger] below(es, i, j) ==> es[i].start_byte <= es[j].start_byte && es[j].end_byte <= es[i].end_byte
    &&& forall|i: int, j: int| 0 <= i < j < es.len() && !#[trigger] below(es, i, j) ==> es[i].end_byte <= es[j].start_byte
}

/// Sets the grammar of `parser` (`tree_sitter::Parser::set_language`),
/// parses `source` with no earlier tree (`tree_sitter::Parser::parse`) and
/// lists the nodes of the tree in pre-order with a cursor
/// (`tree_sitter::Node::descendant_count`, `TreeCursor::goto_descendant`,
/// `TreeCursor::field_name`, `TreeCursor::depth`). The result is named by
/// [`parsed_entries`] of the grammar and the text: with no earlier tree and
/// no progress callback, tree-sitter's parse depends on nothing else.
/// The list has the shape of [`tree_shaped`]: descendant 0 is the root
/// (`goto_descendant`), descendants come in pre-order with their depth
/// below the root (`depth`), and a parent spans exactly from its first
/// child's start to its last child's end, each child starting where the one
/// before it ends or later (`ts_subtree_summarize_children` in
/// `src/subtree.c` and the child iterator of `src/node.c`), all within the
/// text that the lexer read.
#[verifier::external_body]
fn parse_entries(parser: &mut TsParser, grammar: &GrammarHandle, source: &str) -> (r: Result<Vec<NodeEntry>, ParseError>)
    ensures
        parse_result_view(r) == parsed_entries(grammar.grammar(), source@),
        r matches Ok(v) ==> tree_shaped(entries_view(v@), encode_utf8(source@).len()),
{
    parser.set_language(&grammar.language).map_err(|_| ParseError::Language)?;
    let tree = parser.parse(source, None).ok_or(ParseError::NoTree)?;
    let mut cursor = tree.walk();
    let count = tree.root_node().descendant_count();
    let mut entries = Vec::with_capacity(count);
    for i in 0..count {
        cursor.goto_descendant(i);
        let node = cursor.node();
        let field = cursor.field_name().map(|f| f.to_string());
        entries.push(NodeEntry { kind: node.kind().to_string(), field, start_byte: node.start_byte(), end_byte: node.end_byte(), depth: cursor.depth() });
    }
    Ok(entries)
}

/// The grammar that a file extension selects.
pub open spec fn grammar_spec(ext: Seq<char>) -> Option<Grammar> {
    if ext == "py"@ {
        Some(Grammar::Python)
    } else if ext == "js"@ || ext == "mjs"@ {
        Some(Grammar::JavaScript)
    } else if ext == "ts"@ {
        Some(Grammar::TypeScript)
    } else if ext == "tsx"@ {
        Some(Grammar::Tsx)
    } else if ext == "go"@ {
        Some(Grammar::Go)
    } else if ext == "rs"@ {
        Some(Grammar::Rust)
    } else if ext == "java"@ {
        Some(Grammar::Java)
    } else if ext == "php"@ {
        Some(Grammar::Php)
    } else if ext == "cs"@ {
        Some(Grammar::CSharp)
    } else if ext == "c"@ {
        Some(Grammar::C)
    } else if ext == "cpp"@ || ext == "h"@ || ext == "cc"@ {
        Some(Grammar::Cpp)
    } else if ext == "ex"@ || ext == "exs"@ {
        Some(Grammar::Elixir)
    } else if ext == "rb"@ {
        Some(Grammar::Ruby)
    } else if ext == "vue"@ {
        Some(Grammar::Vue)
    } else {
        None
    }
}

/// The language name that a file extension selects.
pub open spec fn language_name_spec(ext: Seq<char>) -> Option<Seq<char>> {
    if ext == "py"@ {
        Some("python"@)
    } else if ext == "js"@ || ext == "mjs"@ {
        Some("javascript"@)
    } else if ext == "ts"@ || ext == "tsx"@ {
        Some("typescript"@)
    } else if ext == "go"@ {
        Some("go"@)
    } else if ext == "rs"@ {
        Some("rust"@)
    } else if ext == "java"@ {
        Some("java"@)
    } else if ext == "php"@ {
        Some("php"@)
    } else if ext == "cs"@ {
        Some("c_sharp"@)
    } else if ext == "c"@ {
        Some("c"@)
    } else if ext == "cpp"@ || ext == "h"@ || ext == "cc"@ {
        Some("cpp"@)
    } else if ext == "ex"@ || ext == "exs"@ {
        Some("elixir"@)
    } else if ext == "rb"@ {
        Some("ruby"@)
    } else if ext == "vue"@ {
        Some("vue"@)
    } else {
        None
    }
}

/// The symbol kind that a node kind denotes in a language, if any.
pub open spec fn symbol_kind_spec(lang: Seq<char>, k: Seq<char>) -> Option<Seq<char>> {
    if lang == "python"@ {
        if k == "function_definition"@ {
            Some("function"@)
        } else if k == "class_definition"@ {
            Some("class"@)
        } else if k == "decorated_definition"@ {
            Some("decorated"@)
        } else {
            None
        }
    } else if lang == "javascript"@ || lang == "typescript"@ {
        if k == "function_declaration"@ || k == "method_definition"@ || k == "arrow_function"@
            || k == "function_expression"@ {
            Some("function"@)
        } else if k == "class_declaration"@ || k == "interface_declaration"@ {
            Some("class"@)
        } else {
            None
        }
    } else if lang == "go"@ {
        if k == "function_declaration"@ {
            Some("function"@)
        } else if k == "method_declaration"@ {
            Some("method"@)
        } else if k == "type_declaration"@ {
            Some("class"@)
        } else {
            None
        }
    } else if lang == "rust"@ {
        if k == "function_item"@ {
            Some("function"@)
        } else if k == "struct_item"@ || k == "enum_item"@ || k == "type_item"@ || k == "trait_item"@
            || k == "impl_item"@ {
            Some("class"@)
        } else {
            None
        }
    } else if lang == "java"@ {
        if k == "method_declaration"@ {
            Some("method"@)
        } else if k == "class_declaration"@ || k == "interface_declaration"@ || k == "enum_declaration"@ {
            Some("class"@)
        } else {
            None
        }
    } else if lang == "php"@ {
        if k == "function_definition"@ {
            Some("function"@)
        } else if k == "class_declaration"@ {
            Some("class"@)
        } else if k == "method_declaration"@ {
            Some("method"@)
        } else {
            None
        }
    } else if lang == "c_sharp"@ {
        if k == "method_declaration"@ {
            Some("method"@)
        } else if k == "class_declaration"@ || k == "interface_declaration"@ || k == "struct_declaration"@ {
            Some("class"@)
        } else {
            None
        }
    } else if lang == "c"@ {
        if k == "function_definition"@ {
            Some("function"@)
        } else if k == "struct_specifier"@ || k == "enum_specifier"@ {
            Some("class"@)
        } else {
            None
        }
    } else if lang == "cpp"@ {
        if k == "function_definition"@ {
            Some("function"@)
        } else if k == "class_specifier"@ || k == "struct_specifier"@ || k == "enum_specifier"@ {
            Some("class"@)
        } else {
            None
        }
    } else if lang == "elixir"@ {
        if k == "def"@ || k == "defp"@ {
            Some("function"@)
        } else if k == "defmodule"@ {
            Some("class"@)
        } else {
            None
        }
    } else if lang == "ruby"@ {
        if k == "method"@ {
            Some("method"@)
        } else if k == "class"@ || k == "module"@ {
            Some("class"@)
        } else {
            None
        }
    } else {
        None
    }
}

/// The source text of a byte span: `None` when the span lies outside the
/// source or its bytes are not UTF-8.
pub open spec fn span_text(src: Seq<u8>, start: usize, end: usize) -> Option<Seq<char>> {
    if start <= end && end <= src.len() && valid_utf8(src.subrange(start as int, end as int)) {
        Some(decode_utf8(src.subrange(start as int, end as int)))
    } else {
        None
    }
}
/// Whether a node kind names an identifier.
pub open spec fn is_name_kind(k: Seq<char>) -> bool {
    k == "identifier"@ || k == "name"@ || k == "type_identifier"@
}


/// The text of entry `j` of `es`, when `j` is an entry and its span lies in
/// the source and decodes.
pub open spec fn entry_text(es: Seq<NodeEntryView>, j: int, src: Seq<u8>) -> Option<Seq<char>> {
    if 0 <= j < es.len() {
        span_text(src, es[j].start_byte, es[j].end_byte)
    } else {
        None
    }
}

/// Whether entry `j` is a child of entry `i`, given that every entry from
/// `i + 1` to `j` lies below `i`.
pub open spec fn is_child(es: Seq<NodeEntryView>, i: int, j: int) -> bool {
    es[j].depth == es[i].depth + 1
}

/// The first child of entry `i`, from entry `j` on, that stands in the
/// field `f` of `i`.
pub open spec fn field_child_from(es: Seq<NodeEntryView>, i: int, j: int, f: Seq<char>) -> Option<int>
    decreases es.len() - j,
{
    if i < 0 || i >= es.len() || j <= i || j >= es.len() || es[j].depth <= es[i].depth {
        None
    } else if is_child(es, i, j) && es[j].field == Some(f) {
        Some(j)
    } else {
        field_child_from(es, i, j + 1, f)
    }
}

/// The child of entry `i` in its field `f`.
pub open spec fn field_child(es: Seq<NodeEntryView>, i: int, f: Seq<char>) -> Option<int> {
    field_child_from(es, i, i + 1, f)
}

/// The first child of entry `i`, from entry `j` on, whose kind is `k`.
pub open spec fn kind_child_from(es: Seq<NodeEntryView>, i: int, j: int, k: Seq<char>) -> Option<int>
    decreases es.len() - j,
{
    if i < 0 || i >= es.len() || j <= i || j >= es.len() || es[j].depth <= es[i].depth {
        None
    } else if is_child(es, i, j) && es[j].kind == k {
        Some(j)
    } else {
        kind_child_from(es, i, j + 1, k)
    }
}

/// The first child of entry `i`: in pre-order it comes right after `i`.
pub open spec fn first_child(es: Seq<NodeEntryView>, i: int) -> Option<int> {
    if 0 <= i && i + 1 < es.len() && is_child(es, i, i + 1) {
        Some(i + 1)
    } else {
        None
    }
}

/// The text of the first child of entry `i`, from entry `j` on, whose kind
/// names an identifier and whose text decodes.
pub open spec fn first_named_text_from(es: Seq<NodeEntryView>, i: int, j: int, src: Seq<u8>) -> Option<Seq<char>>
    decreases es.len() - j,
{
    if i < 0 || i >= es.len() || j <= i || j >= es.len() || es[j].depth <= es[i].depth {
        None
    } else if is_child(es, i, j) && is_name_kind(es[j].kind) && entry_text(es, j, src) is Some {
        entry_text(es, j, src)
    } else {
        first_named_text_from(es, i, j + 1, src)
    }
}

/// The node kinds that end a chain of C and C++ declarators.
pub open spec fn is_declarator_end(k: Seq<char>) -> bool {
    k == "identifier"@ || k == "field_identifier"@ || k == "qualified_identifier"@ || k == "destructor_name"@
        || k == "operator_name"@ || k == "type_identifier"@
}

/// The name a C or C++ declarator declares: follow the `declarator` field
/// down to an identifier and take its text.
pub open spec fn declarator_text(es: Seq<NodeEntryView>, j: int, src: Seq<u8>) -> Option<Seq<char>>
    decreases es.len() - j,
{
    if j < 0 || j >= es.len() {
        None
    } else if is_declarator_end(es[j].kind) {
        entry_text(es, j, src)
    } else {
        match field_child(es, j, "declarator"@) {
            Some(k) => if j < k < es.len() {
                declarator_text(es, k, src)
            } else {
                None
            },
            None => None,
        }
    }
}

/// The text of the child of entry `i` in its field `f`.
pub open spec fn field_text(es: Seq<NodeEntryView>, i: int, f: Seq<char>, src: Seq<u8>) -> Option<Seq<char>> {
    match field_child(es, i, f) {
        Some(c) => entry_text(es, c, src),
        None => None,
    }
}

/// Whether a node kind is a function written as a value (an arrow function
/// or a function expression), which is named by what holds it.
pub open spec fn is_function_value(k: Seq<char>) -> bool {
    k == "arrow_function"@ || k == "function_expression"@
}

/// The parent of entry `i`: the nearest entry before it, from `j` down,
/// that lies above it.
pub open spec fn parent_from(es: Seq<NodeEntryView>, i: int, j: int) -> Option<int>
    decreases j + 1,
{
    if j < 0 || i < 0 || i >= es.len() || j >= i {
        None
    } else if es[j].depth < es[i].depth {
        Some(j)
    } else {
        parent_from(es, i, j - 1)
    }
}

/// The parent of entry `i`, if it has one.
pub open spec fn parent(es: Seq<NodeEntryView>, i: int) -> Option<int> {
    parent_from(es, i, i - 1)
}

/// The name that the declaration holding entry `i` gives it: the `name` of
/// a variable declarator or class field, the `key` of an object pair, the
/// `left` side of an assignment.
pub open spec fn holder_name(es: Seq<NodeEntryView>, i: int, src: Seq<u8>) -> Option<Seq<char>> {
    match parent(es, i) {
        Some(p) => if es[p].kind == "variable_declarator"@ || es[p].kind == "public_field_definition"@ {
            field_text(es, p, "name"@, src)
        } else if es[p].kind == "pair"@ {
            field_text(es, p, "key"@, src)
        } else if es[p].kind == "assignment_expression"@ {
            field_text(es, p, "left"@, src)
        } else {
            None
        },
        None => None,
    }
}

/// The name of a declaration at entry `i`: the text of its `name` field;
/// else that of its first identifier-like child; else the name its
/// `declarator` field declares (C and C++ functions).
pub open spec fn declared_name(es: Seq<NodeEntryView>, i: int, src: Seq<u8>) -> Option<Seq<char>> {
    match field_text(es, i, "name"@, src) {
        Some(t) => Some(t),
        None => match first_named_text_from(es, i, i + 1, src) {
            Some(t) => Some(t),
            None => match field_child(es, i, "declarator"@) {
                Some(c) => declarator_text(es, c, src),
                None => None,
            },
        },
    }
}

/// Whether entry `i` is a function value without a `name` field, so named
/// by the declaration holding it.
pub open spec fn named_by_holder(es: Seq<NodeEntryView>, i: int, src: Seq<u8>) -> bool {
    0 <= i < es.len() && is_function_value(es[i].kind) && field_text(es, i, "name"@, src) is None
}

/// The name of entry `i`: for a function value, its own `name` field or
/// else the name the declaration holding it gives (none when nothing names
/// it); for anything else, its declared name.
pub open spec fn extract_name_spec(es: Seq<NodeEntryView>, i: int, src: Seq<u8>) -> Option<Seq<char>> {
    if 0 <= i < es.len() && is_function_value(es[i].kind) {
        match field_text(es, i, "name"@, src) {
            Some(t) => Some(t),
            None => holder_name(es, i, src),
        }
    } else {
        declared_name(es, i, src)
    }
}

/// The signature of entry `i`: the first line of its text (empty when the
/// text does not decode), without trailing `{` then trailing `:`, then
/// trimmed of white space.
pub open spec fn extract_signature_spec(es: Seq<NodeEntryView>, i: int, src: Seq<u8>) -> Seq<char> {
    let text = match entry_text(es, i, src) {
        Some(t) => t,
        None => Seq::empty(),
    };
    trim_ws(strip_end_in(strip_end_in(first_line(text), seq!['{']), seq![':']))
}

/// The docstring of a Python definition: the string that opens its body,
/// stripped of double quotes and then of single quotes at both ends.
pub open spec fn extract_docstring_spec(es: Seq<NodeEntryView>, i: int, src: Seq<u8>, lang: Seq<char>) -> Option<Seq<char>> {
    if lang == "python"@ {
        match field_child(es, i, "body"@) {
            Some(b) => match first_child(es, b) {
                Some(x) => if es[x].kind == "expression_statement"@ {
                    match first_child(es, x) {
                        Some(s) => if es[s].kind == "string"@ {
                            let text = match entry_text(es, s, src) {
                                Some(t) => t,
                                None => Seq::empty(),
                            };
                            Some(strip_in(strip_in(text, seq!['"']), seq!['\'']))
                        } else {
                            None
                        },
                        None => None,
                    }
                } else {
                    None
                },
                None => None,
            },
            None => None,
        }
    } else {
        None
    }
}

/// The symbol entry `i` stands for, if its kind denotes one and it has a name.
pub open spec fn node_symbol(es: Seq<NodeEntryView>, i: int, src: Seq<u8>, lang: Seq<char>, repo: Seq<char>, file: Seq<char>) -> Option<SymbolView> {
    if 0 <= i < es.len() {
        match symbol_kind_spec(lang, es[i].kind) {
            Some(k) => match extract_name_spec(es, i, src) {
                Some(name) => Some(SymbolView {
                    id: None,
                    repo: repo,
                    file: file,
                    name: name,
                    kind: k,
                    start_byte: es[i].start_byte,
                    end_byte: es[i].end_byte,
                    signature: Some(extract_signature_spec(es, i, src)),
                    docstring: extract_docstring_spec(es, i, src, lang),
                    embedding: None,
                }),
                None => None,
            },
            None => None,
        }
    } else {
        None
    }
}

/// The symbol of entry `i` as a list of zero or one symbols.
pub open spec fn own_symbols(es: Seq<NodeEntryView>, i: int, src: Seq<u8>, lang: Seq<char>, repo: Seq<char>, file: Seq<char>) -> Seq<SymbolView> {
    match node_symbol(es, i, src, lang, repo, file) {
        Some(s) => seq![s],
        None => Seq::empty(),
    }
}

/// The symbols of the first `n` entries, in order.
pub open spec fn symbols_upto(es: Seq<NodeEntryView>, n: int, src: Seq<u8>, lang: Seq<char>, repo: Seq<char>, file: Seq<char>) -> Seq<SymbolView>
    decreases n,
{
    if n <= 0 {
        Seq::empty()
    } else {
        symbols_upto(es, n - 1, src, lang, repo, file) + own_symbols(es, n - 1, src, lang, repo, file)
    }
}

/// The symbols of a syntax tree in pre-order: those of its nodes, in the
/// order of the entries.
pub open spec fn tree_symbols(es: Seq<NodeEntryView>, src: Seq<u8>, lang: Seq<char>, repo: Seq<char>, file: Seq<char>) -> Seq<SymbolView> {
    symbols_upto(es, es.len() as int, src, lang, repo, file)
}

/// The views of a list of symbols.
pub open spec fn symbols_view(s: Seq<Symbol>) -> Seq<SymbolView> {
    s.map_values(|x: Symbol| x@)
}

/// The symbol kinds that extraction assigns.
pub open spec fn is_symbol_kind(k: Seq<char>) -> bool {
    k == "function"@ || k == "class"@ || k == "method"@ || k == "decorated"@
}

/// What holds of every symbol extracted from a file of `lang` in `repo`: it
/// carries that repository and file, no id and no embedding yet, one of the
/// symbol kinds, a signature without white space at its ends, and a
/// docstring only for Python.
pub open spec fn well_formed_symbol(s: SymbolView, lang: Seq<char>, repo: Seq<char>, file: Seq<char>) -> bool {
    &&& s.id is None
    &&& s.repo == repo
    &&& s.file == file
    &&& s.embedding is None
    &&& is_symbol_kind(s.kind)
    &&& s.signature matches Some(sig) && (sig.len() > 0 ==> !is_white_space(sig[0]) && !is_white_space(sig.last()))
    &&& (lang != "python"@ ==> s.docstring is None)
}


proof fn lemma_node_symbol_well_formed(es: Seq<NodeEntryView>, i: int, src: Seq<u8>, lang: Seq<char>, repo: Seq<char>, file: Seq<char>)
    ensures
        node_symbol(es, i, src, lang, repo, file) matches Some(s) ==> well_formed_symbol(s, lang, repo, file),
{
    let text = match entry_text(es, i, src) {
        Some(t) => t,
        None => Seq::empty(),
    };
    lemma_trim_ws_ends(strip_end_in(strip_end_in(first_line(text), seq!['{']), seq![':']));
}

proof fn lemma_symbols_upto_well_formed(es: Seq<NodeEntryView>, n: int, src: Seq<u8>, lang: Seq<char>, repo: Seq<char>, file: Seq<char>)
    ensures
        forall|k: int| 0 <= k < symbols_upto(es, n, src, lang, repo, file).len() ==> well_formed_symbol(
            #[trigger] symbols_upto(es, n, src, lang, repo, file)[k],
            lang,
            repo,
            file,
        ),
    decreases n,
{
    if n > 0 {
        lemma_symbols_upto_well_formed(es, n - 1, src, lang, repo, file);
        lemma_node_symbol_well_formed(es, n - 1, src, lang, repo, file);
        let a = symbols_upto(es, n - 1, src, lang, repo, file);
        let b = own_symbols(es, n - 1, src, lang, repo, file);
        let all = symbols_upto(es, n, src, lang, repo, file);
        assert(all == a + b);
        assert forall|k: int| 0 <= k < all.len() implies well_formed_symbol(#[trigger] all[k], lang, repo, file) by {
            if k < a.len() {
                assert(all[k] == a[k]);
            } else {
                assert(all[k] == b[k - a.len()]);
            }
        }
    }
}

/// Every symbol extracted from a syntax tree is well formed.
pub proof fn lemma_tree_symbols_well_formed(es: Seq<NodeEntryView>, src: Seq<u8>, lang: Seq<char>, repo: Seq<char>, file: Seq<char>)
    ensures
        forall|k: int| 0 <= k < tree_symbols(es, src, lang, repo, file).len() ==> well_formed_symbol(
            #[trigger] tree_symbols(es, src, lang, repo, file)[k],
            lang,
            repo,
            file,
        ),
{
    lemma_symbols_upto_well_formed(es, es.len() as int, src, lang, repo, file);
}

/// The signature a span's text gives: its first line (empty when the text
/// does not decode), without trailing `{` then trailing `:`, then trimmed
/// of white space.
pub open spec fn signature_of_text(text: Option<Seq<char>>) -> Seq<char> {
    let t = match text {
        Some(t) => t,
        None => Seq::empty(),
    };
    trim_ws(strip_end_in(strip_end_in(first_line(t), seq!['{']), seq![':']))
}

/// Whether `t` is the text of some span of the source.
pub open spec fn is_span_text(src: Seq<u8>, t: Seq<char>) -> bool {
    exists|a: usize, b: usize| #[trigger] span_text(src, a, b) == Some(t)
}

proof fn lemma_entry_text_span(es: Seq<NodeEntryView>, j: int, src: Seq<u8>)
    ensures
        entry_text(es, j, src) matches Some(t) ==> is_span_text(src, t),
{
    if 0 <= j < es.len() {
        if let Some(t) = entry_text(es, j, src) {
            assert(span_text(src, es[j].start_byte, es[j].end_byte) == Some(t));
        }
    }
}

proof fn lemma_first_named_span(es: Seq<NodeEntryView>, i: int, j: int, src: Seq<u8>)
    ensures
        first_named_text_from(es, i, j, src) matches Some(t) ==> is_span_text(src, t),
    decreases es.len() - j,
{
    if !(i < 0 || i >= es.len() || j <= i || j >= es.len() || es[j].depth <= es[i].depth) {
        lemma_entry_text_span(es, j, src);
        lemma_first_named_span(es, i, j + 1, src);
    }
}

proof fn lemma_declarator_span(es: Seq<NodeEntryView>, j: int, src: Seq<u8>)
    ensures
        declarator_text(es, j, src) matches Some(t) ==> is_span_text(src, t),
    decreases es.len() - j,
{
    if 0 <= j < es.len() {
        lemma_entry_text_span(es, j, src);
        if let Some(k) = field_child(es, j, "declarator"@) {
            if j < k < es.len() {
                lemma_declarator_span(es, k, src);
            }
        }
    }
}

/// The name of a node, when it has one, is the text of a span of the source.
pub proof fn lemma_name_is_span_text(es: Seq<NodeEntryView>, i: int, src: Seq<u8>)
    ensures
        extract_name_spec(es, i, src) matches Some(t) ==> is_span_text(src, t),
{
    if let Some(c) = field_child(es, i, "name"@) {
        lemma_entry_text_span(es, c, src);
    }
    lemma_first_named_span(es, i, i + 1, src);
    if let Some(c) = field_child(es, i, "declarator"@) {
        lemma_declarator_span(es, c, src);
    }
    if let Some(p) = parent(es, i) {
        if let Some(c) = field_child(es, p, "name"@) {
            lemma_entry_text_span(es, c, src);
        }
        if let Some(c) = field_child(es, p, "key"@) {
            lemma_entry_text_span(es, c, src);
        }
        if let Some(c) = field_child(es, p, "left"@) {
            lemma_entry_text_span(es, c, src);
        }
    }
}

/// What ties a symbol to its span: the signature is the one the span's text
/// gives, and the name is the text of a span of the source.
pub open spec fn symbol_tied_to_source(s: SymbolView, src: Seq<u8>) -> bool {
    &&& s.signature == Some(signature_of_text(span_text(src, s.start_byte, s.end_byte)))
    &&& is_span_text(src, s.name)
}

proof fn lemma_symbols_upto_tied(es: Seq<NodeEntryView>, n: int, src: Seq<u8>, lang: Seq<char>, repo: Seq<char>, file: Seq<char>)
    ensures
        forall|k: int| 0 <= k < symbols_upto(es, n, src, lang, repo, file).len() ==> symbol_tied_to_source(
            #[trigger] symbols_upto(es, n, src, lang, repo, file)[k],
            src,
        ),
    decreases n,
{
    if n > 0 {
        lemma_symbols_upto_tied(es, n - 1, src, lang, repo, file);
        lemma_name_is_span_text(es, n - 1, src);
        let a = symbols_upto(es, n - 1, src, lang, repo, file);
        let b = own_symbols(es, n - 1, src, lang, repo, file);
        let all = symbols_upto(es, n, src, lang, repo, file);
        assert(all == a + b);
        assert forall|k: int| 0 <= k < all.len() implies symbol_tied_to_source(#[trigger] all[k], src) by {
            if k < a.len() {
                assert(all[k] == a[k]);
            } else {
                assert(all[k] == b[k - a.len()]);
            }
        }
    }
}

/// Every symbol extracted from a syntax tree is tied to its span: its
/// signature is the one the span's text gives, and its name is the text
/// of a span of the source.
pub proof fn lemma_tree_symbols_tied(es: Seq<NodeEntryView>, src: Seq<u8>, lang: Seq<char>, repo: Seq<char>, file: Seq<char>)
    ensures
        forall|k: int| 0 <= k < tree_symbols(es, src, lang, repo, file).len() ==> symbol_tied_to_source(
            #[trigger] tree_symbols(es, src, lang, repo, file)[k],
            src,
        ),
{
    lemma_symbols_upto_tied(es, es.len() as int, src, lang, repo, file);
}

/// The entries that give the symbols among the first `n`, in order.
pub open spec fn symbol_entries(es: Seq<NodeEntryView>, n: int, src: Seq<u8>, lang: Seq<char>, repo: Seq<char>, file: Seq<char>) -> Seq<int>
    decreases n,
{
    if n <= 0 {
        Seq::empty()
    } else {
        symbol_entries(es, n - 1, src, lang, repo, file) + if node_symbol(es, n - 1, src, lang, repo, file) is Some {
            seq![n - 1]
        } else {
            Seq::empty()
        }
    }
}

proof fn lemma_symbol_entries(es: Seq<NodeEntryView>, n: int, src: Seq<u8>, lang: Seq<char>, repo: Seq<char>, file: Seq<char>)
    ensures
        symbol_entries(es, n, src, lang, repo, file).len() == symbols_upto(es, n, src, lang, repo, file).len(),
        forall|k: int| 0 <= k < symbol_entries(es, n, src, lang, repo, file).len() ==> {
            let i = #[trigger] symbol_entries(es, n, src, lang, repo, file)[k];
            &&& 0 <= i < n
            &&& 0 <= i < es.len()
            &&& node_symbol(es, i, src, lang, repo, file) == Some(symbols_upto(es, n, src, lang, repo, file)[k])
        },
        forall|k: int, l: int| 0 <= k < l < symbol_entries(es, n, src, lang, repo, file).len() ==>
            #[trigger] symbol_entries(es, n, src, lang, repo, file)[k] < #[trigger] symbol_entries(es, n, src, lang, repo, file)[l],
    decreases n,
{
    if n > 0 {
        lemma_symbol_entries(es, n - 1, src, lang, repo, file);
        let ia = symbol_entries(es, n - 1, src, lang, repo, file);
        let sa = symbols_upto(es, n - 1, src, lang, repo, file);
        let ib = symbol_entries(es, n, src, lang, repo, file);
        let sb = symbols_upto(es, n, src, lang, repo, file);
        assert forall|k: int| 0 <= k < ib.len() implies {
            let i = #[trigger] ib[k];
            &&& 0 <= i < n
            &&& 0 <= i < es.len()
            &&& node_symbol(es, i, src, lang, repo, file) == Some(sb[k])
        } by {
            if k < ia.len() {
                assert(ib[k] == ia[k]);
                assert(sb[k] == sa[k]);
            } else {
                assert(ib[k] == n - 1);
                assert(sb[k] == own_symbols(es, n - 1, src, lang, repo, file)[0]);
            }
        }
        assert forall|k: int, l: int| 0 <= k < l < ib.len() implies #[trigger] ib[k] < #[trigger] ib[l] by {
            if l < ia.len() {
                assert(ib[k] == ia[k]);
                assert(ib[l] == ia[l]);
            } else {
                assert(ib[k] == ia[k]);
            }
        }
    }
}

/// In a tree-shaped list, node starts never decrease.
proof fn lemma_entry_starts_sorted(es: Seq<NodeEntryView>, n: nat, i: int, j: int)
    requires
        tree_shaped(es, n),
        0 <= i <= j < es.len(),
    ensures
        es[i].start_byte <= es[j].start_byte,
        i < j ==> (es[i].start_byte <= es[j].start_byte && es[j].end_byte <= es[i].end_byte)
            || es[i].end_byte <= es[j].start_byte,
{
    if i < j {
        if below(es, i, j) {
        } else {
            assert(es[i].start_byte <= es[i].end_byte);
        }
    }
}

/// Whether symbols lie in a source of `n` bytes, come in order of their
/// start, and any two are nested or disjoint, the earlier one holding or
/// ending before the later.
pub open spec fn symbols_shaped(ss: Seq<SymbolView>, n: nat) -> bool {
    &&& forall|k: int| 0 <= k < ss.len() ==> (#[trigger] ss[k]).start_byte <= ss[k].end_byte && ss[k].end_byte <= n
    &&& forall|k: int, l: int| 0 <= k < l < ss.len() ==> (#[trigger] ss[k]).start_byte <= (#[trigger] ss[l]).start_byte
        && (ss[l].end_byte <= ss[k].end_byte || ss[k].end_byte <= ss[l].start_byte)
}

/// The symbols of a syntax tree of the shape tree-sitter gives lie in the
/// source, come in order of their start, and any two are nested or
/// disjoint, the earlier one holding or ending before the later.
pub proof fn lemma_tree_symbols_shape(es: Seq<NodeEntryView>, src: Seq<u8>, lang: Seq<char>, repo: Seq<char>, file: Seq<char>)
    requires
        tree_shaped(es, src.len()),
    ensures
        symbols_shaped(tree_symbols(es, src, lang, repo, file), src.len()),
{
    let n = es.len() as int;
    lemma_symbol_entries(es, n, src, lang, repo, file);
    let ss = tree_symbols(es, src, lang, repo, file);
    let ix = symbol_entries(es, n, src, lang, repo, file);
    assert forall|k: int| 0 <= k < ss.len() implies (#[trigger] ss[k]).start_byte <= ss[k].end_byte && ss[k].end_byte
        <= src.len() by {
        let i = ix[k];
        assert(node_symbol(es, i, src, lang, repo, file) == Some(ss[k]));
        assert(es[i].start_byte <= es[i].end_byte && es[i].end_byte <= src.len());
    }
    assert forall|k: int, l: int| 0 <= k < l < ss.len() implies (#[trigger] ss[k]).start_byte <= (
    #[trigger] ss[l]).start_byte && (ss[l].end_byte <= ss[k].end_byte || ss[k].end_byte <= ss[l].start_byte) by {
        let i = ix[k];
        let j = ix[l];
        assert(i < j);
        assert(node_symbol(es, i, src, lang, repo, file) == Some(ss[k]));
        assert(node_symbol(es, j, src, lang, repo, file) == Some(ss[l]));
        lemma_entry_starts_sorted(es, src.len(), i, j);
    }
}

/// Whether `t` is the text of a span of the source that lies in `lo..hi`.
pub open spec fn text_within(src: Seq<u8>, t: Seq<char>, lo: usize, hi: usize) -> bool {
    exists|a: usize, b: usize| lo <= a && b <= hi && #[trigger] span_text(src, a, b) == Some(t)
}

proof fn lemma_below_trans(es: Seq<NodeEntryView>, i: int, j: int, k: int)
    requires
        below(es, i, j),
        below(es, j, k),
    ensures
        below(es, i, k),
{
    assert forall|m: int| i < m <= k implies #[trigger] es[m].depth > es[i].depth by {
        if m > j {
            assert(es[m].depth > es[j].depth);
        }
    }
}

proof fn lemma_entry_text_within(es: Seq<NodeEntryView>, i: int, c: int, src: Seq<u8>)
    requires
        tree_shaped(es, src.len()),
        c == i || below(es, i, c),
        0 <= i < es.len(),
    ensures
        entry_text(es, c, src) matches Some(t) ==> text_within(src, t, es[i].start_byte, es[i].end_byte),
{
    if c != i {
        assert(below(es, i, c));
    }
    if let Some(t) = entry_text(es, c, src) {
        assert(span_text(src, es[c].start_byte, es[c].end_byte) == Some(t));
    }
}

proof fn lemma_field_child_below(es: Seq<NodeEntryView>, i: int, j: int, f: Seq<char>)
    requires
        0 <= i < j,
        forall|k: int| i < k < j ==> #[trigger] es[k].depth > es[i].depth,
    ensures
        field_child_from(es, i, j, f) matches Some(c) ==> below(es, i, c),
    decreases es.len() - j,
{
    if !(i < 0 || i >= es.len() || j <= i || j >= es.len() || es[j].depth <= es[i].depth) {
        if !(is_child(es, i, j) && es[j].field == Some(f)) {
            lemma_field_child_below(es, i, j + 1, f);
        }
    }
}

proof fn lemma_first_named_within(es: Seq<NodeEntryView>, i: int, j: int, src: Seq<u8>)
    requires
        tree_shaped(es, src.len()),
        0 <= i < j,
        i < es.len(),
        forall|k: int| i < k < j ==> #[trigger] es[k].depth > es[i].depth,
    ensures
        first_named_text_from(es, i, j, src) matches Some(t) ==> text_within(src, t, es[i].start_byte, es[i].end_byte),
    decreases es.len() - j,
{
    if !(i < 0 || i >= es.len() || j <= i || j >= es.len() || es[j].depth <= es[i].depth) {
        assert(below(es, i, j));
        lemma_entry_text_within(es, i, j, src);
        lemma_first_named_within(es, i, j + 1, src);
    }
}

proof fn lemma_declarator_within(es: Seq<NodeEntryView>, i: int, c: int, src: Seq<u8>)
    requires
        tree_shaped(es, src.len()),
        below(es, i, c),
    ensures
        declarator_text(es, c, src) matches Some(t) ==> text_within(src, t, es[i].start_byte, es[i].end_byte),
    decreases es.len() - c,
{
    lemma_entry_text_within(es, i, c, src);
    if !is_declarator_end(es[c].kind) {
        lemma_field_child_below(es, c, c + 1, "declarator"@);
        if let Some(k) = field_child(es, c, "declarator"@) {
            if c < k < es.len() {
                lemma_below_trans(es, i, c, k);
                lemma_declarator_within(es, i, k, src);
            }
        }
    }
}

proof fn lemma_field_text_within(es: Seq<NodeEntryView>, i: int, f: Seq<char>, src: Seq<u8>)
    requires
        tree_shaped(es, src.len()),
        0 <= i < es.len(),
    ensures
        field_text(es, i, f, src) matches Some(t) ==> text_within(src, t, es[i].start_byte, es[i].end_byte),
{
    lemma_field_child_below(es, i, i + 1, f);
    if let Some(c) = field_child(es, i, f) {
        lemma_entry_text_within(es, i, c, src);
    }
}

proof fn lemma_parent_below(es: Seq<NodeEntryView>, i: int, j: int)
    requires
        0 <= i < es.len(),
        j < i,
        forall|k: int| j < k < i ==> #[trigger] es[k].depth >= es[i].depth,
    ensures
        parent_from(es, i, j) matches Some(p) ==> below(es, p, i),
    decreases j + 1,
{
    if j >= 0 {
        if es[j].depth < es[i].depth {
            assert forall|k: int| j < k <= i implies #[trigger] es[k].depth > es[j].depth by {
                if k < i {
                    assert(es[k].depth >= es[i].depth);
                }
            }
        } else {
            lemma_parent_below(es, i, j - 1);
        }
    }
}

/// The name of a symbol lies in the source text of the symbol itself, or,
/// for a function value named by the declaration holding it, in the text
/// of that declaration, which holds the function.
pub proof fn lemma_symbol_name_within(es: Seq<NodeEntryView>, i: int, src: Seq<u8>, lang: Seq<char>, repo: Seq<char>, file: Seq<char>)
    requires
        tree_shaped(es, src.len()),
        node_symbol(es, i, src, lang, repo, file) is Some,
    ensures
        !named_by_holder(es, i, src) ==> text_within(
            src,
            node_symbol(es, i, src, lang, repo, file)->0.name,
            es[i].start_byte,
            es[i].end_byte,
        ),
        named_by_holder(es, i, src) ==> exists|p: int| #[trigger] below(es, p, i) && text_within(
            src,
            node_symbol(es, i, src, lang, repo, file)->0.name,
            es[p].start_byte,
            es[p].end_byte,
        ),
{
    let name = node_symbol(es, i, src, lang, repo, file)->0.name;
    lemma_field_text_within(es, i, "name"@, src);
    if named_by_holder(es, i, src) {
        lemma_parent_below(es, i, i - 1);
        let p = parent(es, i)->0;
        assert(below(es, p, i));
        lemma_field_text_within(es, p, "name"@, src);
        lemma_field_text_within(es, p, "key"@, src);
        lemma_field_text_within(es, p, "left"@, src);
        assert(text_within(src, name, es[p].start_byte, es[p].end_byte));
    } else if !is_function_value(es[i].kind) {
        lemma_first_named_within(es, i, i + 1, src);
        lemma_field_child_below(es, i, i + 1, "declarator"@);
        if let Some(c) = field_child(es, i, "declarator"@) {
            lemma_declarator_within(es, i, c, src);
        }
    }
}

/// The symbol kinds are four distinct names.
proof fn lemma_symbol_kind_names()
    ensures
        "function"@ != "class"@,
        "function"@ != "method"@,
        "function"@ != "decorated"@,
        "class"@ != "method"@,
        "class"@ != "decorated"@,
        "method"@ != "decorated"@,
{
    reveal_strlit("function");
    reveal_strlit("class");
    reveal_strlit("method");
    reveal_strlit("decorated");
    assert("function"@.len() != "class"@.len());
    assert("function"@.len() != "method"@.len());
    assert("class"@[0] != "decorated"@[0]);
    assert("class"@.len() != "method"@.len());
    assert("function"@[0] != "decorated"@[0]);
    assert("method"@.len() != "decorated"@.len());
}

/// The language names are distinct.
proof fn lemma_language_names()
    ensures
        "python"@ != "javascript"@,
        "python"@ != "typescript"@,
        "python"@ != "go"@,
        "python"@ != "rust"@,
        "python"@ != "java"@,
        "python"@ != "php"@,
        "python"@ != "c_sharp"@,
        "python"@ != "c"@,
        "python"@ != "cpp"@,
        "python"@ != "elixir"@,
        "python"@ != "ruby"@,
        "javascript"@ != "typescript"@,
        "javascript"@ != "go"@,
        "javascript"@ != "rust"@,
        "javascript"@ != "java"@,
        "javascript"@ != "php"@,
        "javascript"@ != "c_sharp"@,
        "javascript"@ != "c"@,
        "javascript"@ != "cpp"@,
        "javascript"@ != "elixir"@,
        "javascript"@ != "ruby"@,
        "typescript"@ != "go"@,
        "typescript"@ != "rust"@,
        "typescript"@ != "java"@,
        "typescript"@ != "php"@,
        "typescript"@ != "c_sharp"@,
        "typescript"@ != "c"@,
        "typescript"@ != "cpp"@,
        "typescript"@ != "elixir"@,
        "typescript"@ != "ruby"@,
        "go"@ != "rust"@,
        "go"@ != "java"@,
        "go"@ != "php"@,
        "go"@ != "c_sharp"@,
        "go"@ != "c"@,
        "go"@ != "cpp"@,
        "go"@ != "elixir"@,
        "go"@ != "ruby"@,
        "rust"@ != "java"@,
        "rust"@ != "php"@,
        "rust"@ != "c_sharp"@,
        "rust"@ != "c"@,
        "rust"@ != "cpp"@,
        "rust"@ != "elixir"@,
        "rust"@ != "ruby"@,
        "java"@ != "php"@,
        "java"@ != "c_sharp"@,
        "java"@ != "c"@,
        "java"@ != "cpp"@,
        "java"@ != "elixir"@,
        "java"@ != "ruby"@,
        "php"@ != "c_sharp"@,
        "php"@ != "c"@,
        "php"@ != "cpp"@,
        "php"@ != "elixir"@,
        "php"@ != "ruby"@,
        "c_sharp"@ != "c"@,
        "c_sharp"@ != "cpp"@,
        "c_sharp"@ != "elixir"@,
        "c_sharp"@ != "ruby"@,
        "c"@ != "cpp"@,
        "c"@ != "elixir"@,
        "c"@ != "ruby"@,
        "cpp"@ != "elixir"@,
        "cpp"@ != "ruby"@,
        "elixir"@ != "ruby"@,
{
    reveal_strlit("python");
    reveal_strlit("javascript");
    reveal_strlit("typescript");
    reveal_strlit("go");
    reveal_strlit("rust");
    reveal_strlit("java");
    reveal_strlit("php");
    reveal_strlit("c_sharp");
    reveal_strlit("c");
    reveal_strlit("cpp");
    reveal_strlit("elixir");
    reveal_strlit("ruby");
    assert("python"@.len() != "javascript"@.len());
    assert("python"@.len() != "typescript"@.len());
    assert("python"@.len() != "go"@.len());
    assert("python"@.len() != "rust"@.len());
    assert("python"@.len() != "java"@.len());
    assert("python"@.len() != "php"@.len());
    assert("python"@.len() != "c_sharp"@.len());
    assert("python"@.len() != "c"@.len());
    assert("python"@.len() != "cpp"@.len());
    assert("python"@[0] != "elixir"@[0]);
    assert("python"@.len() != "ruby"@.len());
    assert("javascript"@[0] != "typescript"@[0]);
    assert("javascript"@.len() != "go"@.len());
    assert("javascript"@.len() != "rust"@.len());
    assert("javascript"@.len() != "java"@.len());
    assert("javascript"@.len() != "php"@.len());
    assert("javascript"@.len() != "c_sharp"@.len());
    assert("javascript"@.len() != "c"@.len());
    assert("javascript"@.len() != "cpp"@.len());
    assert("javascript"@.len() != "elixir"@.len());
    assert("javascript"@.len() != "ruby"@.len());
    assert("typescript"@.len() != "go"@.len());
    assert("typescript"@.len() != "rust"@.len());
    assert("typescript"@.len() != "java"@.len());
    assert("typescript"@.len() != "php"@.len());
    assert("typescript"@.len() != "c_sharp"@.len());
    assert("typescript"@.len() != "c"@.len());
    assert("typescript"@.len() != "cpp"@.len());
    assert("typescript"@.len() != "elixir"@.len());
    assert("typescript"@.len() != "ruby"@.len());
    assert("go"@.len() != "rust"@.len());
    assert("go"@.len() != "java"@.len());
    assert("go"@.len() != "php"@.len());
    assert("go"@.len() != "c_sharp"@.len());
    assert("go"@.len() != "c"@.len());
    assert("go"@.len() != "cpp"@.len());
    assert("go"@.len() != "elixir"@.len());
    assert("go"@.len() != "ruby"@.len());
    assert("rust"@[0] != "java"@[0]);
    assert("rust"@.len() != "php"@.len());
    assert("rust"@.len() != "c_sharp"@.len());
    assert("rust"@.len() != "c"@.len());
    assert("rust"@.len() != "cpp"@.len());
    assert("rust"@.len() != "elixir"@.len());
    assert("rust"@[2] != "ruby"@[2]);
    assert("java"@.len() != "php"@.len());
    assert("java"@.len() != "c_sharp"@.len());
    assert("java"@.len() != "c"@.len());
    assert("java"@.len() != "cpp"@.len());
    assert("java"@.len() != "elixir"@.len());
    assert("java"@[0] != "ruby"@[0]);
    assert("php"@.len() != "c_sharp"@.len());
    assert("php"@.len() != "c"@.len());
    assert("php"@[0] != "cpp"@[0]);
    assert("php"@.len() != "elixir"@.len());
    assert("php"@.len() != "ruby"@.len());
    assert("c_sharp"@.len() != "c"@.len());
    assert("c_sharp"@.len() != "cpp"@.len());
    assert("c_sharp"@.len() != "elixir"@.len());
    assert("c_sharp"@.len() != "ruby"@.len());
    assert("c"@.len() != "cpp"@.len());
    assert("c"@.len() != "elixir"@.len());
    assert("c"@.len() != "ruby"@.len());
    assert("cpp"@.len() != "elixir"@.len());
    assert("cpp"@.len() != "ruby"@.len());
    assert("elixir"@.len() != "ruby"@.len());
}

/// The symbol table of python: function_definition give a function; class_definition give a class; decorated_definition give a decorated; no other node kind is a symbol.
pub proof fn lemma_python_symbol_kinds(lang: Seq<char>, k: Seq<char>)
    requires
        lang == "python"@,
    ensures
        symbol_kind_spec(lang, k) == Some("function"@) <==> (k == "function_definition"@),
        symbol_kind_spec(lang, k) == Some("class"@) <==> (k == "class_definition"@),
        symbol_kind_spec(lang, k) == Some("decorated"@) <==> (k == "decorated_definition"@),
        symbol_kind_spec(lang, k) is Some <==> (k == "function_definition"@ || k == "class_definition"@ || k == "decorated_definition"@),
{
    lemma_symbol_kind_names();
    lemma_language_names();
    reveal_strlit("function_definition");
    reveal_strlit("class_definition");
    reveal_strlit("decorated_definition");
    assert("function_definition"@.len() != "class_definition"@.len());
    assert("function_definition"@.len() != "decorated_definition"@.len());
    assert("class_definition"@.len() != "decorated_definition"@.len());
}

/// The symbol table of javascript and typescript: function_declaration, method_definition, arrow_function, function_expression give a function; class_declaration, interface_declaration give a class; no other node kind is a symbol.
pub proof fn lemma_javascript_symbol_kinds(lang: Seq<char>, k: Seq<char>)
    requires
        lang == "javascript"@ || lang == "typescript"@,
    ensures
        symbol_kind_spec(lang, k) == Some("function"@) <==> (k == "function_declaration"@ || k == "method_definition"@ || k == "arrow_function"@ || k == "function_expression"@),
        symbol_kind_spec(lang, k) == Some("class"@) <==> (k == "class_declaration"@ || k == "interface_declaration"@),
        symbol_kind_spec(lang, k) is Some <==> (k == "function_declaration"@ || k == "method_definition"@ || k == "arrow_function"@ || k == "function_expression"@ || k == "class_declaration"@ || k == "interface_declaration"@),
{
    lemma_symbol_kind_names();
    lemma_language_names();
    reveal_strlit("function_declaration");
    reveal_strlit("method_definition");
    reveal_strlit("arrow_function");
    reveal_strlit("function_expression");
    reveal_strlit("class_declaration");
    reveal_strlit("interface_declaration");
    assert("function_declaration"@.len() != "method_definition"@.len());
    assert("function_declaration"@.len() != "arrow_function"@.len());
    assert("function_declaration"@.len() != "function_expression"@.len());
    assert("function_declaration"@.len() != "class_declaration"@.len());
    assert("function_declaration"@.len() != "interface_declaration"@.len());
    assert("method_definition"@.len() != "arrow_function"@.len());
    assert("method_definition"@.len() != "function_expression"@.len());
    assert("method_definition"@[0] != "class_declaration"@[0]);
    assert("method_definition"@.len() != "interface_declaration"@.len());
    assert("arrow_function"@.len() != "function_expression"@.len());
    assert("arrow_function"@.len() != "class_declaration"@.len());
    assert("arrow_function"@.len() != "interface_declaration"@.len());
    assert("function_expression"@.len() != "class_declaration"@.len());
    assert("function_expression"@.len() != "interface_declaration"@.len());
    assert("class_declaration"@.len() != "interface_declaration"@.len());
}

/// The symbol table of go: function_declaration give a function; method_declaration give a method; type_declaration give a class; no other node kind is a symbol.
pub proof fn lemma_go_symbol_kinds(lang: Seq<char>, k: Seq<char>)
    requires
        lang == "go"@,
    ensures
        symbol_kind_spec(lang, k) == Some("function"@) <==> (k == "function_declaration"@),
        symbol_kind_spec(lang, k) == Some("method"@) <==> (k == "method_declaration"@),
        symbol_kind_spec(lang, k) == Some("class"@) <==> (k == "type_declaration"@),
        symbol_kind_spec(lang, k) is Some <==> (k == "function_declaration"@ || k == "method_declaration"@ || k == "type_declaration"@),
{
    lemma_symbol_kind_names();
    lemma_language_names();
    reveal_strlit("function_declaration");
    reveal_strlit("method_declaration");
    reveal_strlit("type_declaration");
    assert("function_declaration"@.len() != "method_declaration"@.len());
    assert("function_declaration"@.len() != "type_declaration"@.len());
    assert("method_declaration"@.len() != "type_declaration"@.len());
}

/// The symbol table of rust: function_item give a function; struct_item, enum_item, type_item, trait_item, impl_item give a class; no other node kind is a symbol.
pub proof fn lemma_rust_symbol_kinds(lang: Seq<char>, k: Seq<char>)
    requires
        lang == "rust"@,
    ensures
        symbol_kind_spec(lang, k) == Some("function"@) <==> (k == "function_item"@),
        symbol_kind_spec(lang, k) == Some("class"@) <==> (k == "struct_item"@ || k == "enum_item"@ || k == "type_item"@ || k == "trait_item"@ || k == "impl_item"@),
        symbol_kind_spec(lang, k) is Some <==> (k == "function_item"@ || k == "struct_item"@ || k == "enum_item"@ || k == "type_item"@ || k == "trait_item"@ || k == "impl_item"@),
{
    lemma_symbol_kind_names();
    lemma_language_names();
    reveal_strlit("function_item");
    reveal_strlit("struct_item");
    reveal_strlit("enum_item");
    reveal_strlit("type_item");
    reveal_strlit("trait_item");
    reveal_strlit("impl_item");
    assert("function_item"@.len() != "struct_item"@.len());
    assert("function_item"@.len() != "enum_item"@.len());
    assert("function_item"@.len() != "type_item"@.len());
    assert("function_item"@.len() != "trait_item"@.len());
    assert("function_item"@.len() != "impl_item"@.len());
    assert("struct_item"@.len() != "enum_item"@.len());
    assert("struct_item"@.len() != "type_item"@.len());
    assert("struct_item"@.len() != "trait_item"@.len());
    assert("struct_item"@.len() != "impl_item"@.len());
    assert("enum_item"@[0] != "type_item"@[0]);
    assert("enum_item"@.len() != "trait_item"@.len());
    assert("enum_item"@[0] != "impl_item"@[0]);
    assert("type_item"@.len() != "trait_item"@.len());
    assert("type_item"@[0] != "impl_item"@[0]);
    assert("trait_item"@.len() != "impl_item"@.len());
}

/// The symbol table of java: method_declaration give a method; class_declaration, interface_declaration, enum_declaration give a class; no other node kind is a symbol.
pub proof fn lemma_java_symbol_kinds(lang: Seq<char>, k: Seq<char>)
    requires
        lang == "java"@,
    ensures
        symbol_kind_spec(lang, k) == Some("method"@) <==> (k == "method_declaration"@),
        symbol_kind_spec(lang, k) == Some("class"@) <==> (k == "class_declaration"@ || k == "interface_declaration"@ || k == "enum_declaration"@),
        symbol_kind_spec(lang, k) is Some <==> (k == "method_declaration"@ || k == "class_declaration"@ || k == "interface_declaration"@ || k == "enum_declaration"@),
{
    lemma_symbol_kind_names();
    lemma_language_names();
    reveal_strlit("method_declaration");
    reveal_strlit("class_declaration");
    reveal_strlit("interface_declaration");
    reveal_strlit("enum_declaration");
    assert("method_declaration"@.len() != "class_declaration"@.len());
    assert("method_declaration"@.len() != "interface_declaration"@.len());
    assert("method_declaration"@.len() != "enum_declaration"@.len());
    assert("class_declaration"@.len() != "interface_declaration"@.len());
    assert("class_declaration"@.len() != "enum_declaration"@.len());
    assert("interface_declaration"@.len() != "enum_declaration"@.len());
}

/// The symbol table of php: function_definition give a function; class_declaration give a class; method_declaration give a method; no other node kind is a symbol.
pub proof fn lemma_php_symbol_kinds(lang: Seq<char>, k: Seq<char>)
    requires
        lang == "php"@,
    ensures
        symbol_kind_spec(lang, k) == Some("function"@) <==> (k == "function_definition"@),
        symbol_kind_spec(lang, k) == Some("class"@) <==> (k == "class_declaration"@),
        symbol_kind_spec(lang, k) == Some("method"@) <==> (k == "method_declaration"@),
        symbol_kind_spec(lang, k) is Some <==> (k == "function_definition"@ || k == "class_declaration"@ || k == "method_declaration"@),
{
    lemma_symbol_kind_names();
    lemma_language_names();
    reveal_strlit("function_definition");
    reveal_strlit("class_declaration");
    reveal_strlit("method_declaration");
    assert("function_definition"@.len() != "class_declaration"@.len());
    assert("function_definition"@.len() != "method_declaration"@.len());
    assert("class_declaration"@.len() != "method_declaration"@.len());
}

/// The symbol table of c_sharp: method_declaration give a method; class_declaration, interface_declaration, struct_declaration give a class; no other node kind is a symbol.
pub proof fn lemma_c_sharp_symbol_kinds(lang: Seq<char>, k: Seq<char>)
    requires
        lang == "c_sharp"@,
    ensures
        symbol_kind_spec(lang, k) == Some("method"@) <==> (k == "method_declaration"@),
        symbol_kind_spec(lang, k) == Some("class"@) <==> (k == "class_declaration"@ || k == "interface_declaration"@ || k == "struct_declaration"@),
        symbol_kind_spec(lang, k) is Some <==> (k == "method_declaration"@ || k == "class_declaration"@ || k == "interface_declaration"@ || k == "struct_declaration"@),
{
    lemma_symbol_kind_names();
    lemma_language_names();
    reveal_strlit("method_declaration");
    reveal_strlit("class_declaration");
    reveal_strlit("interface_declaration");
    reveal_strlit("struct_declaration");
    assert("method_declaration"@.len() != "class_declaration"@.len());
    assert("method_declaration"@.len() != "interface_declaration"@.len());
    assert("method_declaration"@[0] != "struct_declaration"@[0]);
    assert("class_declaration"@.len() != "interface_declaration"@.len());
    assert("class_declaration"@.len() != "struct_declaration"@.len());
    assert("interface_declaration"@.len() != "struct_declaration"@.len());
}

/// The symbol table of c: function_definition give a function; struct_specifier, enum_specifier give a class; no other node kind is a symbol.
pub proof fn lemma_c_symbol_kinds(lang: Seq<char>, k: Seq<char>)
    requires
        lang == "c"@,
    ensures
        symbol_kind_spec(lang, k) == Some("function"@) <==> (k == "function_definition"@),
        symbol_kind_spec(lang, k) == Some("class"@) <==> (k == "struct_specifier"@ || k == "enum_specifier"@),
        symbol_kind_spec(lang, k) is Some <==> (k == "function_definition"@ || k == "struct_specifier"@ || k == "enum_specifier"@),
{
    lemma_symbol_kind_names();
    lemma_language_names();
    reveal_strlit("function_definition");
    reveal_strlit("struct_specifier");
    reveal_strlit("enum_specifier");
    assert("function_definition"@.len() != "struct_specifier"@.len());
    assert("function_definition"@.len() != "enum_specifier"@.len());
    assert("struct_specifier"@.len() != "enum_specifier"@.len());
}

/// The symbol table of cpp: function_definition give a function; class_specifier, struct_specifier, enum_specifier give a class; no other node kind is a symbol.
pub proof fn lemma_cpp_symbol_kinds(lang: Seq<char>, k: Seq<char>)
    requires
        lang == "cpp"@,
    ensures
        symbol_kind_spec(lang, k) == Some("function"@) <==> (k == "function_definition"@),
        symbol_kind_spec(lang, k) == Some("class"@) <==> (k == "class_specifier"@ || k == "struct_specifier"@ || k == "enum_specifier"@),
        symbol_kind_spec(lang, k) is Some <==> (k == "function_definition"@ || k == "class_specifier"@ || k == "struct_specifier"@ || k == "enum_specifier"@),
{
    lemma_symbol_kind_names();
    lemma_language_names();
    reveal_strlit("function_definition");
    reveal_strlit("class_specifier");
    reveal_strlit("struct_specifier");
    reveal_strlit("enum_specifier");
    assert("function_definition"@.len() != "class_specifier"@.len());
    assert("function_definition"@.len() != "struct_specifier"@.len());
    assert("function_definition"@.len() != "enum_specifier"@.len());
    assert("class_specifier"@.len() != "struct_specifier"@.len());
    assert("class_specifier"@.len() != "enum_specifier"@.len());
    assert("struct_specifier"@.len() != "enum_specifier"@.len());
}

/// The symbol table of elixir: def, defp give a function; defmodule give a class; no other node kind is a symbol.
pub proof fn lemma_elixir_symbol_kinds(lang: Seq<char>, k: Seq<char>)
    requires
        lang == "elixir"@,
    ensures
        symbol_kind_spec(lang, k) == Some("function"@) <==> (k == "def"@ || k == "defp"@),
        symbol_kind_spec(lang, k) == Some("class"@) <==> (k == "defmodule"@),
        symbol_kind_spec(lang, k) is Some <==> (k == "def"@ || k == "defp"@ || k == "defmodule"@),
{
    lemma_symbol_kind_names();
    lemma_language_names();
    reveal_strlit("def");
    reveal_strlit("defp");
    reveal_strlit("defmodule");
    assert("def"@.len() != "defp"@.len());
    assert("def"@.len() != "defmodule"@.len());
    assert("defp"@.len() != "defmodule"@.len());
}

/// The symbol table of ruby: method give a method; class, module give a class; no other node kind is a symbol.
pub proof fn lemma_ruby_symbol_kinds(lang: Seq<char>, k: Seq<char>)
    requires
        lang == "ruby"@,
    ensures
        symbol_kind_spec(lang, k) == Some("method"@) <==> (k == "method"@),
        symbol_kind_spec(lang, k) == Some("class"@) <==> (k == "class"@ || k == "module"@),
        symbol_kind_spec(lang, k) is Some <==> (k == "method"@ || k == "class"@ || k == "module"@),
{
    lemma_symbol_kind_names();
    lemma_language_names();
    reveal_strlit("method");
    reveal_strlit("class");
    reveal_strlit("module");
    assert("method"@.len() != "class"@.len());
    assert("method"@[1] != "module"@[1]);
    assert("class"@.len() != "module"@.len());
}

/// A class method of a JavaScript or TypeScript file that has a name is
/// extracted as a symbol of kind `function`, with that name and the
/// method's own span.
pub proof fn lemma_class_methods_are_functions(
    es: Seq<NodeEntryView>,
    i: int,
    src: Seq<u8>,
    lang: Seq<char>,
    repo: Seq<char>,
    file: Seq<char>,
)
    requires
        lang == "javascript"@ || lang == "typescript"@,
        0 <= i < es.len(),
        es[i].kind == "method_definition"@,
        extract_name_spec(es, i, src) is Some,
    ensures
        node_symbol(es, i, src, lang, repo, file) matches Some(s) && s.kind == "function"@ && Some(s.name)
            == extract_name_spec(es, i, src) && s.start_byte == es[i].start_byte && s.end_byte == es[i].end_byte,
{
    lemma_javascript_symbol_kinds(lang, es[i].kind);
}

/// The view of an optional string slice.
pub open spec fn opt_str_view(o: Option<&str>) -> Option<Seq<char>> {
    match o {
        Some(t) => Some(t@),
        None => None,
    }
}

/// The symbol kind ("function", "class", "method" or "decorated") that a
/// node kind denotes in a language, if any.
pub fn get_symbol_kind(lang: &str, node_kind: &str) -> (r: Option<&'static str>)
    ensures
        opt_str_view(r) == symbol_kind_spec(lang@, node_kind@),
{
    let k = node_kind;
    if str_eq(lang, "python") {
        if str_eq(k, "function_definition") {
            Some("function")
        } else if str_eq(k, "class_definition") {
            Some("class")
        } else if str_eq(k, "decorated_definition") {
            Some("decorated")
        } else {
            None
        }
    } else if str_eq(lang, "javascript") || str_eq(lang, "typescript") {
        if str_eq(k, "function_declaration") || str_eq(k, "method_definition") || str_eq(k, "arrow_function")
            || str_eq(k, "function_expression") {
            Some("function")
        } else if str_eq(k, "class_declaration") || str_eq(k, "interface_declaration") {
            Some("class")
        } else {
            None
        }
    } else if str_eq(lang, "go") {
        if str_eq(k, "function_declaration") {
            Some("function")
        } else if str_eq(k, "method_declaration") {
            Some("method")
        } else if str_eq(k, "type_declaration") {
            Some("class")
        } else {
            None
        }
    } else if str_eq(lang, "rust") {
        if str_eq(k, "function_item") {
            Some("function")
        } else if str_eq(k, "struct_item") || str_eq(k, "enum_item") || str_eq(k, "type_item")
            || str_eq(k, "trait_item") || str_eq(k, "impl_item") {
            Some("class")
        } else {
            None
        }
    } else if str_eq(lang, "java") {
        if str_eq(k, "method_declaration") {
            Some("method")
        } else if str_eq(k, "class_declaration") || str_eq(k, "interface_declaration") || str_eq(k, "enum_declaration") {
            Some("class")
        } else {
            None
        }
    } else if str_eq(lang, "php") {
        if str_eq(k, "function_definition") {
            Some("function")
        } else if str_eq(k, "class_declaration") {
            Some("class")
        } else if str_eq(k, "method_declaration") {
            Some("method")
        } else {
            None
        }
    } else if str_eq(lang, "c_sharp") {
        if str_eq(k, "method_declaration") {
            Some("method")
        } else if str_eq(k, "class_declaration") || str_eq(k, "interface_declaration") || str_eq(k, "struct_declaration") {
            Some("class")
        } else {
            None
        }
    } else if str_eq(lang, "c") {
        if str_eq(k, "function_definition") {
            Some("function")
        } else if str_eq(k, "struct_specifier") || str_eq(k, "enum_specifier") {
            Some("class")
        } else {
            None
        }
    } else if str_eq(lang, "cpp") {
        if str_eq(k, "function_definition") {
            Some("function")
        } else if str_eq(k, "class_specifier") || str_eq(k, "struct_specifier") || str_eq(k, "enum_specifier") {
            Some("class")
        } else {
            None
        }
    } else if str_eq(lang, "elixir") {
        if str_eq(k, "def") || str_eq(k, "defp") {
            Some("function")
        } else if str_eq(k, "defmodule") {
            Some("class")
        } else {
            None
        }
    } else if str_eq(lang, "ruby") {
        if str_eq(k, "method") {
            Some("method")
        } else if str_eq(k, "class") || str_eq(k, "module") {
            Some("class")
        } else {
            None
        }
    } else {
        None
    }
}
/// The view of an optional character vector.
pub open spec fn opt_chars_view(o: Option<Vec<char>>) -> Option<Seq<char>> {
    match o {
        Some(v) => Some(v@),
        None => None,
    }
}

/// The source text of a byte span, when it lies in the source and decodes.
fn span_text_of(src: &[u8], start: usize, end: usize) -> (r: Option<Vec<char>>)
    ensures
        opt_chars_view(r) == span_text(src@, start, end),
{
    if start <= end && end <= src.len() {
        decode_utf8_chars(slice_subrange(src, start, end))
    } else {
        None
    }
}


/// The language name and grammar that a file extension selects.
fn get_language_info(ext: &str) -> (r: Option<(&'static str, Grammar)>)
    ensures
        match r {
            Some(p) => language_name_spec(ext@) == Some(p.0@) && grammar_spec(ext@) == Some(p.1),
            None => language_name_spec(ext@) is None && grammar_spec(ext@) is None,
        },
{
    if str_eq(ext, "py") {
        Some(("python", Grammar::Python))
    } else if str_eq(ext, "js") || str_eq(ext, "mjs") {
        Some(("javascript", Grammar::JavaScript))
    } else if str_eq(ext, "ts") {
        Some(("typescript", Grammar::TypeScript))
    } else if str_eq(ext, "tsx") {
        Some(("typescript", Grammar::Tsx))
    } else if str_eq(ext, "go") {
        Some(("go", Grammar::Go))
    } else if str_eq(ext, "rs") {
        Some(("rust", Grammar::Rust))
    } else if str_eq(ext, "java") {
        Some(("java", Grammar::Java))
    } else if str_eq(ext, "php") {
        Some(("php", Grammar::Php))
    } else if str_eq(ext, "cs") {
        Some(("c_sharp", Grammar::CSharp))
    } else if str_eq(ext, "c") {
        Some(("c", Grammar::C))
    } else if str_eq(ext, "cpp") || str_eq(ext, "h") || str_eq(ext, "cc") {
        Some(("cpp", Grammar::Cpp))
    } else if str_eq(ext, "ex") || str_eq(ext, "exs") {
        Some(("elixir", Grammar::Elixir))
    } else if str_eq(ext, "rb") {
        Some(("ruby", Grammar::Ruby))
    } else if str_eq(ext, "vue") {
        Some(("vue", Grammar::Vue))
    } else {
        None
    }
}

/// The language name that a file extension selects, if any.
pub fn language_name(ext: &str) -> (r: Option<&'static str>)
    ensures
        opt_str_view(r) == language_name_spec(ext@),
{
    match get_language_info(ext) {
        Some(p) => Some(p.0),
        None => None,
    }
}

/// The view of an optional index.
pub open spec fn opt_int(o: Option<usize>) -> Option<int> {
    match o {
        Some(i) => Some(i as int),
        None => None,
    }
}

/// The source text of a byte span as a `String`.
fn span_text_string(src: &[u8], start: usize, end: usize) -> (r: Option<String>)
    ensures
        opt_view(r) == span_text(src@, start, end),
{
    if start <= end && end <= src.len() {
        decode_utf8_string(slice_subrange(src, start, end))
    } else {
        None
    }
}

/// Whether an entry lies right below depth `d`, given that it lies below it.
fn is_child_depth(depth: u32, d: u32) -> (r: bool)
    requires
        depth > d,
    ensures
        r == (depth == d + 1),
{
    depth - 1 == d
}

/// The index of the child of entry `i` in its field `f`.
fn field_child_at(es: &Vec<NodeEntry>, i: usize, f: &str) -> (r: Option<usize>)
    ensures
        opt_int(r) == field_child(entries_view(es@), i as int, f@),
        r matches Some(j) ==> i < j < es@.len(),
{
    let ghost v = entries_view(es@);
    if i >= es.len() {
        return None;
    }
    let d = es[i].depth;
    let mut j: usize = i + 1;
    while j < es.len()
        invariant
            v == entries_view(es@),
            i < es@.len(),
            i < j <= es@.len(),
            d == v[i as int].depth,
            field_child(v, i as int, f@) == field_child_from(v, i as int, j as int, f@),
        decreases es@.len() - j,
    {
        let e = &es[j];
        assert(v[j as int] == es@[j as int]@);
        if e.depth <= d {
            return None;
        }
        if is_child_depth(e.depth, d) {
            match &e.field {
                Some(name) => {
                    if str_eq(name.as_str(), f) {
                        return Some(j);
                    }
                },
                None => {},
            }
        }
        j = j + 1;
    }
    None
}

/// The index of the first child of entry `i` whose kind is `k`.
fn kind_child_at(es: &Vec<NodeEntry>, i: usize, k: &str) -> (r: Option<usize>)
    ensures
        opt_int(r) == kind_child_from(entries_view(es@), i as int, i + 1, k@),
        r matches Some(j) ==> i < j < es@.len(),
{
    let ghost v = entries_view(es@);
    if i >= es.len() {
        return None;
    }
    let d = es[i].depth;
    let mut j: usize = i + 1;
    while j < es.len()
        invariant
            v == entries_view(es@),
            i < es@.len(),
            i < j <= es@.len(),
            d == v[i as int].depth,
            kind_child_from(v, i as int, i + 1, k@) == kind_child_from(v, i as int, j as int, k@),
        decreases es@.len() - j,
    {
        let e = &es[j];
        assert(v[j as int] == es@[j as int]@);
        if e.depth <= d {
            return None;
        }
        if is_child_depth(e.depth, d) && str_eq(e.kind.as_str(), k) {
            return Some(j);
        }
        j = j + 1;
    }
    None
}

/// Whether a node kind names an identifier.
fn is_name_kind_str(k: &str) -> (r: bool)
    ensures
        r == is_name_kind(k@),
{
    str_eq(k, "identifier") || str_eq(k, "name") || str_eq(k, "type_identifier")
}

/// The text of the first identifier-like child of entry `i` whose text decodes.
fn first_named_text_at(es: &Vec<NodeEntry>, i: usize, src: &[u8]) -> (r: Option<String>)
    ensures
        opt_view(r) == first_named_text_from(entries_view(es@), i as int, i + 1, src@),
{
    let ghost v = entries_view(es@);
    if i >= es.len() {
        return None;
    }
    let d = es[i].depth;
    let mut j: usize = i + 1;
    while j < es.len()
        invariant
            v == entries_view(es@),
            i < es@.len(),
            i < j <= es@.len(),
            d == v[i as int].depth,
            first_named_text_from(v, i as int, i + 1, src@) == first_named_text_from(v, i as int, j as int, src@),
        decreases es@.len() - j,
    {
        let e = &es[j];
        assert(v[j as int] == es@[j as int]@);
        if e.depth <= d {
            return None;
        }
        if is_child_depth(e.depth, d) && is_name_kind_str(e.kind.as_str()) {
            let t = span_text_string(src, e.start_byte, e.end_byte);
            if t.is_some() {
                return t;
            }
        }
        j = j + 1;
    }
    None
}

/// Whether a node kind ends a chain of declarators.
fn is_declarator_end_str(k: &str) -> (r: bool)
    ensures
        r == is_declarator_end(k@),
{
    str_eq(k, "identifier") || str_eq(k, "field_identifier") || str_eq(k, "qualified_identifier")
        || str_eq(k, "destructor_name") || str_eq(k, "operator_name") || str_eq(k, "type_identifier")
}

/// The name that the declarator at entry `c` declares.
fn declarator_text_at(es: &Vec<NodeEntry>, c: usize, src: &[u8]) -> (r: Option<String>)
    ensures
        opt_view(r) == declarator_text(entries_view(es@), c as int, src@),
{
    let ghost v = entries_view(es@);
    let mut j: usize = c;
    while j < es.len()
        invariant
            v == entries_view(es@),
            declarator_text(v, c as int, src@) == declarator_text(v, j as int, src@),
        decreases es@.len() - j,
    {
        assert(v[j as int] == es@[j as int]@);
        if is_declarator_end_str(es[j].kind.as_str()) {
            return span_text_string(src, es[j].start_byte, es[j].end_byte);
        }
        match field_child_at(es, j, "declarator") {
            Some(n) => {
                j = n;
            },
            None => {
                return None;
            },
        }
    }
    None
}

/// The text of the child of entry `i` in its field `f`.
fn field_text_at(es: &Vec<NodeEntry>, i: usize, f: &str, src: &[u8]) -> (r: Option<String>)
    ensures
        opt_view(r) == field_text(entries_view(es@), i as int, f@, src@),
{
    let ghost v = entries_view(es@);
    match field_child_at(es, i, f) {
        Some(c) => {
            assert(v[c as int] == es@[c as int]@);
            span_text_string(src, es[c].start_byte, es[c].end_byte)
        },
        None => None,
    }
}

/// The index of the parent of entry `i`.
fn parent_at(es: &Vec<NodeEntry>, i: usize) -> (r: Option<usize>)
    ensures
        opt_int(r) == parent(entries_view(es@), i as int),
        r matches Some(p) ==> p < i < es@.len(),
{
    let ghost v = entries_view(es@);
    if i >= es.len() || i == 0 {
        return None;
    }
    assert(v[i as int] == es@[i as int]@);
    let d = es[i].depth;
    let mut j: usize = i;
    while j > 0
        invariant
            v == entries_view(es@),
            0 < i < es@.len(),
            j <= i,
            d == v[i as int].depth,
            parent(v, i as int) == parent_from(v, i as int, j - 1),
        decreases j,
    {
        let k = j - 1;
        assert(v[k as int] == es@[k as int]@);
        if es[k].depth < d {
            return Some(k);
        }
        j = k;
    }
    None
}

/// The name the declaration holding entry `i` gives it.
fn holder_name_at(es: &Vec<NodeEntry>, i: usize, src: &[u8]) -> (r: Option<String>)
    ensures
        opt_view(r) == holder_name(entries_view(es@), i as int, src@),
{
    let ghost v = entries_view(es@);
    let p = match parent_at(es, i) {
        Some(p) => p,
        None => return None,
    };
    assert(v[p as int] == es@[p as int]@);
    let k = es[p].kind.as_str();
    if str_eq(k, "variable_declarator") || str_eq(k, "public_field_definition") {
        field_text_at(es, p, "name", src)
    } else if str_eq(k, "pair") {
        field_text_at(es, p, "key", src)
    } else if str_eq(k, "assignment_expression") {
        field_text_at(es, p, "left", src)
    } else {
        None
    }
}

/// The name of entry `i`. A function value (arrow function or function
/// expression) is named by its `name` field, else by the declaration that
/// holds it (a variable declarator, class field, object pair or
/// assignment). Anything else is named by its `name` field, else its first
/// child whose kind is `identifier`, `name` or `type_identifier`, else the
/// name its `declarator` field declares.
pub fn extract_name(es: &Vec<NodeEntry>, i: usize, src: &[u8]) -> (r: Option<String>)
    ensures
        opt_view(r) == extract_name_spec(entries_view(es@), i as int, src@),
{
    let ghost v = entries_view(es@);
    let by_field = field_text_at(es, i, "name", src);
    if i < es.len() {
        assert(v[i as int] == es@[i as int]@);
        let k = es[i].kind.as_str();
        if str_eq(k, "arrow_function") || str_eq(k, "function_expression") {
            if by_field.is_some() {
                return by_field;
            }
            return holder_name_at(es, i, src);
        }
    }
    if by_field.is_some() {
        return by_field;
    }
    let by_kind = first_named_text_at(es, i, src);
    if by_kind.is_some() {
        return by_kind;
    }
    match field_child_at(es, i, "declarator") {
        Some(c) => declarator_text_at(es, c, src),
        None => None,
    }
}

/// The signature of entry `i`: the first line of its text, without trailing
/// `{` and then trailing `:`, trimmed of white space.
pub fn extract_signature(es: &Vec<NodeEntry>, i: usize, src: &[u8]) -> (r: String)
    ensures
        r@ == extract_signature_spec(entries_view(es@), i as int, src@),
{
    let ghost v = entries_view(es@);
    let text = if i < es.len() {
        assert(v[i as int] == es@[i as int]@);
        match span_text_of(src, es[i].start_byte, es[i].end_byte) {
            Some(t) => t,
            None => Vec::new(),
        }
    } else {
        Vec::new()
    };
    let line = first_line_of(&text);
    let brace = ['{'];
    let colon = [':'];
    let bs = brace.as_slice();
    let cs = colon.as_slice();
    assert(bs@ == seq!['{']);
    assert(cs@ == seq![':']);
    let a = trim_end_in(&line, bs);
    let b = trim_end_in(&a, cs);
    let c = trim_white_space(&b);
    string_from_chars(c.as_slice())
}

/// The index of the first child of entry `i`.
fn first_child_at(es: &Vec<NodeEntry>, i: usize) -> (r: Option<usize>)
    ensures
        opt_int(r) == first_child(entries_view(es@), i as int),
        r matches Some(j) ==> j < es@.len(),
{
    let ghost v = entries_view(es@);
    if i < es.len() && i + 1 < es.len() {
        assert(v[i as int] == es@[i as int]@);
        assert(v[i + 1] == es@[i + 1]@);
        if es[i + 1].depth > es[i].depth && is_child_depth(es[i + 1].depth, es[i].depth) {
            return Some(i + 1);
        }
    }
    None
}

/// The docstring of a Python definition at entry `i`: the string literal
/// that opens its body, stripped of `"` and then of `'` at both ends.
pub fn extract_docstring(es: &Vec<NodeEntry>, i: usize, src: &[u8], lang: &str) -> (r: Option<String>)
    ensures
        opt_view(r) == extract_docstring_spec(entries_view(es@), i as int, src@, lang@),
{
    let ghost v = entries_view(es@);
    if !str_eq(lang, "python") {
        return None;
    }
    let b = match field_child_at(es, i, "body") {
        Some(b) => b,
        None => return None,
    };
    let x = match first_child_at(es, b) {
        Some(x) => x,
        None => return None,
    };
    assert(v[x as int] == es@[x as int]@);
    if !str_eq(es[x].kind.as_str(), "expression_statement") {
        return None;
    }
    let s = match first_child_at(es, x) {
        Some(s) => s,
        None => return None,
    };
    assert(v[s as int] == es@[s as int]@);
    if !str_eq(es[s].kind.as_str(), "string") {
        return None;
    }
    let text = match span_text_of(src, es[s].start_byte, es[s].end_byte) {
        Some(t) => t,
        None => Vec::new(),
    };
    let dq = ['"'];
    let sq = ['\''];
    let ds = dq.as_slice();
    let ss = sq.as_slice();
    assert(ds@ == seq!['"']);
    assert(ss@ == seq!['\'']);
    let a = trim_in(&text, ds);
    let c = trim_in(&a, ss);
    Some(string_from_chars(c.as_slice()))
}

/// The symbol entry `i` stands for, if any.
fn entry_symbol(es: &Vec<NodeEntry>, i: usize, src: &[u8], lang: &str, repo: &str, file: &str) -> (r: Option<Symbol>)
    requires
        i < es@.len(),
    ensures
        match r {
            Some(s) => node_symbol(entries_view(es@), i as int, src@, lang@, repo@, file@) == Some(s@),
            None => node_symbol(entries_view(es@), i as int, src@, lang@, repo@, file@) is None,
        },
{
    let ghost v = entries_view(es@);
    assert(v[i as int] == es@[i as int]@);
    let kind = match get_symbol_kind(lang, es[i].kind.as_str()) {
        Some(k) => k,
        None => return None,
    };
    let name = match extract_name(es, i, src) {
        Some(n) => n,
        None => return None,
    };
    let signature = extract_signature(es, i, src);
    let docstring = extract_docstring(es, i, src, lang);
    Some(Symbol {
        id: None,
        repo: repo.to_owned(),
        file: file.to_owned(),
        name,
        kind: kind.to_owned(),
        start_byte: es[i].start_byte,
        end_byte: es[i].end_byte,
        signature: Some(signature),
        docstring,
        embedding: None,
    })
}

/// The symbols of a syntax tree of a file in `lang`, given as its nodes in
/// pre-order: each node whose kind denotes a symbol and which has a name
/// gives one, with its kind, name, span, signature and (for Python)
/// docstring.
pub fn symbols_from_tree(es: &Vec<NodeEntry>, src: &[u8], lang: &str, repo: &str, file: &str) -> (r: Vec<Symbol>)
    ensures
        symbols_view(r@) == tree_symbols(entries_view(es@), src@, lang@, repo@, file@),
{
    let ghost v = entries_view(es@);
    let mut out: Vec<Symbol> = Vec::new();
    let mut i: usize = 0;
    assert(symbols_view(out@) =~= Seq::<SymbolView>::empty());
    while i < es.len()
        invariant
            v == entries_view(es@),
            i <= es@.len(),
            symbols_view(out@) == symbols_upto(v, i as int, src@, lang@, repo@, file@),
        decreases es@.len() - i,
    {
        let ghost before = out@;
        match entry_symbol(es, i, src, lang, repo, file) {
            Some(s) => {
                out.push(s);
                assert(symbols_view(out@) =~= symbols_view(before) + seq![s@]);
            },
            None => {
                assert(own_symbols(v, i as int, src@, lang@, repo@, file@) =~= Seq::<SymbolView>::empty());
                assert(symbols_view(out@) =~= symbols_view(before) + Seq::<SymbolView>::empty());
            },
        }
        i = i + 1;
    }
    out
}

/// A symbol moved `off` bytes further into the file, as a list of zero or
/// one symbols: none when the moved span does not fit in `usize`.
pub open spec fn shifted(s: SymbolView, off: usize) -> Seq<SymbolView> {
    if s.start_byte + off <= usize::MAX && s.end_byte + off <= usize::MAX {
        seq![SymbolView {
            id: s.id,
            repo: s.repo,
            file: s.file,
            name: s.name,
            kind: s.kind,
            start_byte: (s.start_byte + off) as usize,
            end_byte: (s.end_byte + off) as usize,
            signature: s.signature,
            docstring: s.docstring,
            embedding: None,
        }]
    } else {
        Seq::empty()
    }
}

/// The first `n` symbols of `ss`, each moved `off` bytes further.
pub open spec fn shift_upto(ss: Seq<SymbolView>, n: int, off: usize) -> Seq<SymbolView>
    decreases n,
{
    if n <= 0 {
        Seq::empty()
    } else {
        shift_upto(ss, n - 1, off) + shifted(ss[n - 1], off)
    }
}

/// The symbols of an embedded script, taken from a file in which the
/// script starts `s` entries in: those of the script's text, parsed as
/// TypeScript, with their spans moved to where the text lies in the file.
pub open spec fn script_symbols(es: Seq<NodeEntryView>, s: int, src: Seq<u8>, repo: Seq<char>, file: Seq<char>) -> Seq<SymbolView> {
    if 0 <= s < es.len() && es[s].kind == "script_element"@ {
        match kind_child_from(es, s, s + 1, "raw_text"@) {
            Some(t) => match entry_text(es, t, src) {
                Some(text) => match parsed_entries(Grammar::TypeScript, text) {
                    Ok(sub) => {
                        let inner = tree_symbols(sub, encode_utf8(text), "typescript"@, repo, file);
                        shift_upto(inner, inner.len() as int, es[t].start_byte)
                    },
                    Err(_) => Seq::empty(),
                },
                None => Seq::empty(),
            },
            None => Seq::empty(),
        }
    } else {
        Seq::empty()
    }
}

/// The symbols of the scripts among the first `n` entries of a Vue file.
pub open spec fn vue_symbols_upto(es: Seq<NodeEntryView>, n: int, src: Seq<u8>, repo: Seq<char>, file: Seq<char>) -> Seq<SymbolView>
    decreases n,
{
    if n <= 0 {
        Seq::empty()
    } else {
        vue_symbols_upto(es, n - 1, src, repo, file) + script_symbols(es, n - 1, src, repo, file)
    }
}

/// What extracting symbols from `source` with grammar `g` gives: the
/// symbols of its syntax tree (for a Vue file, those of its scripts), or
/// why it could not be parsed.
pub open spec fn file_symbols(g: Grammar, source: Seq<char>, lang: Seq<char>, repo: Seq<char>, file: Seq<char>) -> Result<Seq<SymbolView>, ParseError> {
    match parsed_entries(g, source) {
        Ok(es) => Ok(
            if g is Vue {
                vue_symbols_upto(es, es.len() as int, encode_utf8(source), repo, file)
            } else {
                tree_symbols(es, encode_utf8(source), lang, repo, file)
            },
        ),
        Err(e) => Err(e),
    }
}

/// The view of a list of symbols or an error.
pub open spec fn symbols_result_view(r: Result<Vec<Symbol>, ParseError>) -> Result<Seq<SymbolView>, ParseError> {
    match r {
        Ok(v) => Ok(symbols_view(v@)),
        Err(e) => Err(e),
    }
}

/// Moves the spans of `syms` `off` bytes further, leaving out any whose
/// moved span does not fit in `usize`.
fn shift_symbols(syms: &Vec<Symbol>, off: usize, Ghost(m): Ghost<nat>) -> (r: Vec<Symbol>)
    requires
        forall|k: int| 0 <= k < syms@.len() ==> (#[trigger] syms@[k]).start_byte <= syms@[k].end_byte
            && syms@[k].end_byte <= m,
    ensures
        symbols_view(r@) == shift_upto(symbols_view(syms@), syms@.len() as int, off),
        forall|k: int| 0 <= k < r@.len() ==> (#[trigger] r@[k]).start_byte <= r@[k].end_byte && r@[k].end_byte
            <= m + off,
{
    let ghost ss = symbols_view(syms@);
    let mut out: Vec<Symbol> = Vec::new();
    let mut i: usize = 0;
    assert(symbols_view(out@) =~= Seq::<SymbolView>::empty());
    while i < syms.len()
        invariant
            ss == symbols_view(syms@),
            i <= syms@.len(),
            symbols_view(out@) == shift_upto(ss, i as int, off),
            forall|k: int| 0 <= k < syms@.len() ==> (#[trigger] syms@[k]).start_byte <= syms@[k].end_byte
                && syms@[k].end_byte <= m,
            forall|k: int| 0 <= k < out@.len() ==> (#[trigger] out@[k]).start_byte <= out@[k].end_byte
                && out@[k].end_byte <= m + off,
        decreases syms@.len() - i,
    {
        let s = &syms[i];
        assert(ss[i as int] == syms@[i as int]@);
        let ghost before = out@;
        match (s.start_byte.checked_add(off), s.end_byte.checked_add(off)) {
            (Some(a), Some(b)) => {
                let docstring = match &s.docstring {
                    Some(d) => Some(d.clone()),
                    None => None,
                };
                let signature = match &s.signature {
                    Some(d) => Some(d.clone()),
                    None => None,
                };
                let t = Symbol {
                    id: s.id,
                    repo: s.repo.clone(),
                    file: s.file.clone(),
                    name: s.name.clone(),
                    kind: s.kind.clone(),
                    start_byte: a,
                    end_byte: b,
                    signature,
                    docstring,
                    embedding: None,
                };
                assert(syms@[i as int].end_byte <= m);
                out.push(t);
                assert(symbols_view(out@) =~= symbols_view(before) + seq![t@]);
                assert(forall|k: int| 0 <= k < before.len() ==> out@[k] == before[k]);
            },
            _ => {
                assert(symbols_view(out@) =~= symbols_view(before) + Seq::<SymbolView>::empty());
            },
        }
        i = i + 1;
    }
    out
}

/// The symbols of the script that entry `s` of a Vue file starts, if it
/// is one.
fn script_symbols_at(
    parser: &mut TsParser,
    ts: &GrammarHandle,
    es: &Vec<NodeEntry>,
    s: usize,
    src: &[u8],
    repo: &str,
    file: &str,
) -> (r: Vec<Symbol>)
    requires
        ts.grammar() == Grammar::TypeScript,
    ensures
        symbols_view(r@) == script_symbols(entries_view(es@), s as int, src@, repo@, file@),
        forall|k: int| 0 <= k < r@.len() ==> (#[trigger] r@[k]).start_byte <= r@[k].end_byte && r@[k].end_byte
            <= src@.len(),
{
    let ghost v = entries_view(es@);
    if s >= es.len() {
        return Vec::new();
    }
    assert(v[s as int] == es@[s as int]@);
    if !str_eq(es[s].kind.as_str(), "script_element") {
        return Vec::new();
    }
    let t = match kind_child_at(es, s, "raw_text") {
        Some(t) => t,
        None => return Vec::new(),
    };
    assert(v[t as int] == es@[t as int]@);
    let text = match span_text_string(src, es[t].start_byte, es[t].end_byte) {
        Some(x) => x,
        None => return Vec::new(),
    };
    let sub = match parse_entries(parser, ts, text.as_str()) {
        Ok(sub) => sub,
        Err(_) => return Vec::new(),
    };
    let bytes = text.as_str().as_bytes();
    let inner = symbols_from_tree(&sub, bytes, "typescript", repo, file);
    let ghost m: nat = (es@[t as int].end_byte - es@[t as int].start_byte) as nat;
    proof {
        let piece = src@.subrange(es@[t as int].start_byte as int, es@[t as int].end_byte as int);
        vstd::utf8::decode_utf8_encode_utf8(piece);
        assert(bytes@.len() == m);
        lemma_tree_symbols_shape(entries_view(sub@), bytes@, "typescript"@, repo@, file@);
        assert forall|k: int| 0 <= k < inner@.len() implies (#[trigger] inner@[k]).start_byte <= inner@[k].end_byte
            && inner@[k].end_byte <= m by {
            assert(symbols_view(inner@)[k] == inner@[k]@);
        }
    }
    shift_symbols(&inner, es[t].start_byte, Ghost(m))
}

/// Extracts symbols from source files with tree-sitter grammars.
pub struct Parser {
    parser: TsParser,
}

impl Parser {
    /// A parser with no grammar set yet.
    pub fn new() -> (r: Result<Parser, ParseError>)
        ensures
            r is Ok,
    {
        Ok(Parser { parser: ts_parser_new() })
    }

    /// Parses `source` with the grammar its extension selects and returns the
    /// symbols of the syntax tree in pre-order; for a Vue file, those of its
    /// scripts, parsed as TypeScript. An extension that selects no grammar
    /// yields no symbols. The symbols lie in the source; outside Vue files
    /// they also come in order of their start and are nested or disjoint.
    pub fn parse_file(&mut self, source: &str, ext: &str, repo: &str, file_path: &str) -> (r: Result<Vec<Symbol>, ParseError>)
        ensures
            match grammar_spec(ext@) {
                None => r matches Ok(v) && v@.len() == 0,
                Some(g) => symbols_result_view(r) == file_symbols(
                    g,
                    source@,
                    language_name_spec(ext@)->0,
                    repo@,
                    file_path@,
                ),
            },
            grammar_spec(ext@) != Some(Grammar::Vue) ==> (r matches Ok(v) ==> symbols_shaped(
                symbols_view(v@),
                encode_utf8(source@).len(),
            )),
            r matches Ok(v) ==> forall|k: int| 0 <= k < v@.len() ==> (#[trigger] v@[k]).start_byte <= v@[k].end_byte
                && v@[k].end_byte <= encode_utf8(source@).len(),
    {
        let (lang_name, grammar) = match get_language_info(ext) {
            Some(info) => info,
            None => return Ok(Vec::new()),
        };
        let handle = GrammarHandle::new(grammar);
        let es = match parse_entries(&mut self.parser, &handle, source) {
            Ok(es) => es,
            Err(e) => return Err(e),
        };
        let bytes = source.as_bytes();
        if let Grammar::Vue = grammar {
            let ghost v = entries_view(es@);
            let ts = GrammarHandle::new(Grammar::TypeScript);
            let mut out: Vec<Symbol> = Vec::new();
            let mut i: usize = 0;
            assert(symbols_view(out@) =~= Seq::<SymbolView>::empty());
            while i < es.len()
                invariant
                    v == entries_view(es@),
                    ts.grammar() == Grammar::TypeScript,
                    i <= es@.len(),
                    bytes@ == encode_utf8(source@),
                    symbols_view(out@) == vue_symbols_upto(v, i as int, bytes@, repo@, file_path@),
                    forall|k: int| 0 <= k < out@.len() ==> (#[trigger] out@[k]).start_byte <= out@[k].end_byte
                        && out@[k].end_byte <= bytes@.len(),
                decreases es@.len() - i,
            {
                let mut part = script_symbols_at(&mut self.parser, &ts, &es, i, bytes, repo, file_path);
                let ghost before = out@;
                let ghost added = part@;
                out.append(&mut part);
                assert(symbols_view(out@) =~= symbols_view(before) + symbols_view(added));
                assert(out@ == before + added);
                assert forall|k: int| 0 <= k < out@.len() implies (#[trigger] out@[k]).start_byte <= out@[k].end_byte
                    && out@[k].end_byte <= bytes@.len() by {
                    if k < before.len() {
                        assert(out@[k] == before[k]);
                    } else {
                        assert(out@[k] == added[k - before.len()]);
                    }
                }
                i = i + 1;
            }
            Ok(out)
        } else {
            let syms = symbols_from_tree(&es, bytes, lang_name, repo, file_path);
            proof {
                lemma_tree_symbols_shape(entries_view(es@), bytes@, lang_name@, repo@, file_path@);
                assert forall|k: int| 0 <= k < syms@.len() implies (#[trigger] syms@[k]).start_byte
                    <= syms@[k].end_byte && syms@[k].end_byte <= bytes@.len() by {
                    assert(symbols_view(syms@)[k] == syms@[k]@);
                }
            }
            Ok(syms)
        }
    }
}

} // verus!
