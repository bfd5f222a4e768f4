//! The parser, the syntax tree and the highlight query, all provided by
//! tree-sitter with its Python grammar.

use crate::highlight::Capture;
use crate::position::EditDescriptor;
use tree_sitter::{Language, LanguageError, Node, Parser, Point, Query, QueryCursor, QueryError, Tree};
use vstd::prelude::*;

verus! {

#[verifier::external_type_specification]
#[verifier::external_body]
pub struct ExParser(Parser);

#[verifier::external_type_specification]
#[verifier::external_body]
pub struct ExTree(Tree);

#[verifier::external_type_specification]
#[verifier::external_body]
pub struct ExQuery(Query);

#[verifier::external_type_specification]
#[verifier::external_body]
pub struct ExLanguageError(LanguageError);

#[verifier::external_type_specification]
#[verifier::external_body]
pub struct ExQueryError(QueryError);

/// Relies on tree_sitter::Parser::new: a parser with no language yet.
pub assume_specification[ Parser::new ]() -> Parser;

/// Whether tree-sitter accepts a grammar of ABI version `v`: between its
/// `MIN_COMPATIBLE_LANGUAGE_VERSION` (13) and `LANGUAGE_VERSION` (14).
pub open spec fn grammar_fits(v: nat) -> bool {
    13 <= v <= 14
}

/// The ABI version of the Python grammar (`LANGUAGE_VERSION` of its parser).
pub open spec fn python_grammar_version() -> nat {
    14
}

/// Whether `source` compiles as a query against the Python grammar.
pub uninterp spec fn python_query_compiles(source: Seq<char>) -> bool;

/// The capture names of the query `source` compiled against the Python
/// grammar, in the order of the capture indices.
pub uninterp spec fn python_capture_names(source: Seq<char>) -> Seq<Seq<char>>;

/// Relies on tree_sitter::Parser::set_language with tree_sitter_python::language:
/// it fails exactly when the grammar's version is outside the supported range.
#[verifier::external_body]
pub(crate) fn load_python_grammar(parser: &mut Parser) -> (r: Result<(), LanguageError>)
    ensures
        r is Ok <==> grammar_fits(python_grammar_version()),
{
    parser.set_language(tree_sitter_python::language())
}

/// Relies on tree_sitter::Query::new with the Python grammar, which depends on
/// the source alone, and on tree_sitter::Query::capture_names, copied out.
/// Only the bundled highlight query is compiled: `Query::new` can panic while
/// describing an unknown name that runs to the end of other texts.
#[verifier::external_body]
pub(crate) fn compile_python_query(source: &str) -> (r: Result<(Query, Vec<String>), QueryError>)
    requires
        source@ == highlight_source(),
    ensures
        r is Ok <==> python_query_compiles(source@),
        r matches Ok((q, names)) ==> names@.map_values(|n: String| n@) == python_capture_names(
            source@,
        ),
{
    Query::new(tree_sitter_python::language(), source).map(|q| {
        let names = q.capture_names().to_vec();
        (q, names)
    })
}

/// The text of the Python grammar's bundled highlight query.
pub open spec fn highlight_source() -> Seq<char> {
    r#"; Identifier naming conventions

((identifier) @constructor
 (#match? @constructor "^[A-Z]"))

((identifier) @constant
 (#match? @constant "^[A-Z][A-Z_]*$"))

; Builtin functions

((call
  function: (identifier) @function.builtin)
 (#match?
   @function.builtin
   "^(abs|all|any|ascii|bin|bool|breakpoint|bytearray|bytes|callable|chr|classmethod|compile|complex|delattr|dict|dir|divmod|enumerate|eval|exec|filter|float|format|frozenset|getattr|globals|hasattr|hash|help|hex|id|input|int|isinstance|issubclass|iter|len|list|locals|map|max|memoryview|min|next|object|oct|open|ord|pow|print|property|range|repr|reversed|round|set|setattr|slice|sorted|staticmethod|str|sum|super|tuple|type|vars|zip|__import__)$"))

; Function calls

(decorator) @function

(call
  function: (attribute attribute: (identifier) @function.method))
(call
  function: (identifier) @function)

; Function definitions

(function_definition
  name: (identifier) @function)

(identifier) @variable
(attribute attribute: (identifier) @property)
(type (identifier) @type)

; Literals

[
  (none)
  (true)
  (false)
] @constant.builtin

[
  (integer)
  (float)
] @number

(comment) @comment
(string) @string
(escape_sequence) @escape

(interpolation
  "{" @punctuation.special
  "}" @punctuation.special) @embedded

[
  "-"
  "-="
  "!="
  "*"
  "**"
  "**="
  "*="
  "/"
  "//"
  "//="
  "/="
  "&"
  "&="
  "%"
  "%="
  "^"
  "^="
  "+"
  "->"
  "+="
  "<"
  "<<"
  "<<="
  "<="
  "<>"
  "="
  ":="
  "=="
  ">"
  ">="
  ">>"
  ">>="
  "|"
  "|="
  "~"
  "@="
  "and"
  "in"
  "is"
  "not"
  "or"
] @operator

[
  "as"
  "assert"
  "async"
  "await"
  "break"
  "class"
  "continue"
  "def"
  "del"
  "elif"
  "else"
  "except"
  "exec"
  "finally"
  "for"
  "from"
  "global"
  "if"
  "import"
  "lambda"
  "nonlocal"
  "pass"
  "print"
  "raise"
  "return"
  "try"
  "while"
  "with"
  "yield"
  "match"
  "case"
] @keyword
"#@
}

/// Relies on tree_sitter_python::HIGHLIGHT_QUERY: the text of the grammar's
/// queries/highlights.scm.
#[verifier::external_body]
pub(crate) fn highlight_query() -> (r: &'static str)
    ensures
        r@ == highlight_source(),
{
    tree_sitter_python::HIGHLIGHT_QUERY
}

/// Relies on tree_sitter::Parser::parse: a tree for `text` that reuses the
/// parts of `old` left untouched by the edits applied to it, or `None`.
#[verifier::external_body]
pub(crate) fn parse_text(parser: &mut Parser, text: &str, old: Option<&Tree>) -> Option<Tree> {
    parser.parse(text, old)
}

/// Relies on tree_sitter::Tree::edit: shifts the tree's stored ranges to
/// follow the edit, without reparsing.
#[verifier::external_body]
pub(crate) fn edit_tree(tree: &mut Tree, d: &EditDescriptor) {
    tree.edit(
        &tree_sitter::InputEdit {
            start_byte: d.start_byte,
            old_end_byte: d.old_end_byte,
            new_end_byte: d.new_end_byte,
            start_position: Point::new(d.start_position.row, d.start_position.column),
            old_end_position: Point::new(d.old_end_position.row, d.old_end_position.column),
            new_end_position: Point::new(d.new_end_position.row, d.new_end_position.column),
        },
    )
}

/// Relies on tree_sitter::QueryCursor::captures: every capture of `query`
/// over the tree, in the order the query engine yields them, each as its
/// node's identity and byte range and its capture index. Text predicates
/// see an empty text for a node whose range lies outside `text`, so a tree
/// that does not match `text` cannot make the call panic.
#[verifier::external_body]
pub(crate) fn query_captures(query: &Query, tree: &Tree, text: &str) -> Vec<Capture> {
    let mut cursor = QueryCursor::new();
    let mut out = Vec::new();
    let bytes = text.as_bytes();
    let node_text = |n: Node| std::iter::once(bytes.get(n.byte_range()).unwrap_or(&[]));
    for (m, i) in cursor.captures(query, tree.root_node(), node_text) {
        let c = m.captures[i];
        let r = c.node.byte_range();
        out.push(Capture { node: c.node.id(), start: r.start, end: r.end, index: c.index });
    }
    out
}

} // verus!
