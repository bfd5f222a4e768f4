//! The highlighted buffer: a text, its syntax tree and its style spans,
//! kept consistent across edits.

use crate::engine::{
    compile_python_query, edit_tree, highlight_query, highlight_source, load_python_grammar,
    parse_text, python_capture_names, python_query_compiles, query_captures,
};
use crate::highlight::{
    captures_within, compute_spans, distinct_span_nodes, lemma_spans_distinct_nodes,
    lemma_spans_fit, lemma_within_fits, range_fits, sorted_by_start, spans_spec, Capture, Span,
};
use crate::style::resolve_spec;
use crate::position::{describe_edit, splice};
use crate::style::{style_table, Style};
use std::ops::Range;
use tree_sitter::{Parser, Query, Tree};
use vstd::prelude::*;
use vstd::utf8::{encode_utf8, is_char_boundary};

verus! {

/// Why an edit was rejected.
#[derive(Clone, Copy, Debug, PartialEq, Eq, Structural)]
pub enum EditError {
    /// The range is reversed, runs past the end of the buffer, or splits a character.
    InvalidRange,
}

/// Why a highlighted buffer could not be set up.
#[derive(Clone, Copy, Debug, PartialEq, Eq, Structural)]
pub enum SetupError {
    /// The grammar does not fit the parser.
    IncompatibleGrammar,
    /// The highlight query does not compile against the grammar.
    InvalidQuery,
}

/// Whether `range` may be replaced in the text `text`: in order, inside it,
/// and on character boundaries.
pub open spec fn valid_range(text: Seq<u8>, start: int, end: int) -> bool {
    &&& start <= end <= text.len()
    &&& is_char_boundary(text, start)
    &&& is_char_boundary(text, end)
}

/// Relies on String::replace_range: the bytes in `start..end` become those of `new`.
#[verifier::external_body]
fn replace_range(s: &mut String, start: usize, end: usize, new: &str)
    requires
        valid_range(encode_utf8(old(s)@), start as int, end as int),
    ensures
        encode_utf8(final(s)@) == splice(
            encode_utf8(old(s)@),
            start as int,
            end as int,
            encode_utf8(new@),
        ),
{
    s.replace_range(start..end, new)
}

/// A text buffer highlighted through a syntax tree kept in step with it.
pub struct CodeText {
    buffer: String,
    parser: Parser,
    query: Query,
    styles: Vec<Style>,
    tree: Option<Tree>,
    spans: Vec<Span>,
    captures: Ghost<Seq<Capture>>,
    highlighted: Ghost<Seq<u8>>,
}

/// The style table of a list of capture names.
pub open spec fn styles_of(names: Seq<Seq<char>>) -> Seq<Style> {
    names.map_values(|n: Seq<char>| resolve_spec(encode_utf8(n)))
}

impl CodeText {
    /// The bytes of the buffer.
    pub closed spec fn text(&self) -> Seq<u8> {
        encode_utf8(self.buffer@)
    }

    /// The style spans last computed.
    pub closed spec fn span_view(&self) -> Seq<Span> {
        self.spans@
    }

    /// The captures the spans were computed from.
    pub closed spec fn capture_view(&self) -> Seq<Capture> {
        self.captures@
    }

    /// The style of each capture index.
    pub closed spec fn style_view(&self) -> Seq<Style> {
        self.styles@
    }

    /// The text as it was when the spans were last recomputed.
    pub closed spec fn highlighted_text(&self) -> Seq<u8> {
        self.highlighted@
    }

    /// Whether a syntax tree of the current text is held.
    pub closed spec fn has_tree(&self) -> bool {
        self.tree is Some
    }

    /// The spans are those of the captures, they were last recomputed while
    /// the text was as it is now, the captures lie inside the text, and there
    /// are none without a tree.
    pub open spec fn wf(&self) -> bool {
        &&& self.span_view() == spans_spec(self.capture_view(), self.style_view())
        &&& !self.has_tree() ==> self.capture_view().len() == 0
        &&& self.highlighted_text() == self.text()
        &&& forall|i: int|
            0 <= i < self.capture_view().len() ==> range_fits(
                #[trigger] self.capture_view()[i].start,
                self.capture_view()[i].end,
                self.text(),
            )
        &&& forall|i: int|
            0 <= i < self.span_view().len() ==> range_fits(
                #[trigger] self.span_view()[i].start,
                self.span_view()[i].end,
                self.text(),
            )
    }

    /// Sets up the Python grammar and its bundled highlight query, and
    /// highlights `buffer`. The grammar always fits; it fails exactly when
    /// the bundled query does not compile.
    pub fn new(buffer: String) -> (r: Result<CodeText, SetupError>)
        ensures
            r is Ok <==> python_query_compiles(highlight_source()),
            r matches Err(e) ==> e == SetupError::InvalidQuery,
            r matches Ok(t) ==> t.wf() && t.text() == encode_utf8(buffer@) && t.style_view()
                == styles_of(python_capture_names(highlight_source())),
    {
        let source = highlight_query();
        let mut parser = Parser::new();
        if load_python_grammar(&mut parser).is_err() {
            return Err(SetupError::IncompatibleGrammar);
        }
        let (query, names) = match compile_python_query(source) {
            Ok(compiled) => compiled,
            Err(_) => {
                return Err(SetupError::InvalidQuery);
            },
        };
        let styles = style_table(names.as_slice());
        proof {
            let want = styles_of(python_capture_names(highlight_source()));
            assert(names@.map_values(|n: String| n@) == python_capture_names(highlight_source()));
            assert forall|i: int| 0 <= i < styles@.len() implies styles@[i] == want[i] by {
                assert(names@.map_values(|n: String| n@)[i] == names@[i]@);
            }
            assert(styles@ =~= want);
        }
        let mut t = CodeText {
            buffer,
            parser,
            query,
            styles,
            tree: None,
            spans: Vec::new(),
            captures: Ghost(Seq::empty()),
            highlighted: Ghost(Seq::empty()),
        };
        t.update();
        Ok(t)
    }

    /// Reparses the buffer, reusing the tree held, and takes the result
    /// through `set_tree`.
    fn update(&mut self)
        ensures
            final(self).text() == old(self).text(),
            final(self).style_view() == old(self).style_view(),
            !final(self).has_tree() ==> final(self).span_view().len() == 0,
            final(self).wf(),
    {
        let tree = parse_text(&mut self.parser, self.buffer.as_str(), self.tree.as_ref());
        self.set_tree(tree);
    }

    /// Holds `tree` as the tree of the current text, dropping the one held
    /// before, and recomputes the spans from the captures over it that lie
    /// inside the text; with no tree there are no spans.
    fn set_tree(&mut self, tree: Option<Tree>)
        ensures
            final(self).has_tree() == (tree is Some),
            final(self).text() == old(self).text(),
            final(self).style_view() == old(self).style_view(),
            !final(self).has_tree() ==> final(self).span_view().len() == 0,
            final(self).wf(),
    {
        self.tree = tree;
        match &self.tree {
            Some(tree) => {
                let raw = query_captures(&self.query, tree, self.buffer.as_str());
                let caps = captures_within(raw.as_slice(), self.buffer.as_str());
                self.spans = compute_spans(caps.as_slice(), self.styles.as_slice());
                self.captures = Ghost(caps@);
                proof {
                    lemma_within_fits(raw@, encode_utf8(self.buffer@));
                    lemma_spans_fit(caps@, self.styles@, encode_utf8(self.buffer@));
                }
            },
            None => {
                self.spans = Vec::new();
                self.captures = Ghost(Seq::empty());
                assert(self.spans@ =~= spans_spec(Seq::empty(), self.styles@));
            },
        }
        self.highlighted = Ghost(encode_utf8(self.buffer@));
    }

    /// The length of the buffer, in bytes.
    pub fn len(&self) -> (n: usize)
        ensures
            n == self.text().len(),
    {
        self.buffer.as_str().as_bytes().len()
    }

    /// Whether the buffer is empty.
    pub fn is_empty(&self) -> (b: bool)
        ensures
            b == (self.text().len() == 0),
    {
        self.buffer.as_str().as_bytes().len() == 0
    }

    /// The text of the buffer.
    pub fn as_str(&self) -> (s: &str)
        ensures
            encode_utf8(s@) == self.text(),
    {
        self.buffer.as_str()
    }

    /// The style spans of the current text, ordered by start.
    pub fn spans(&self) -> (r: Vec<Span>)
        ensures
            r@ == self.span_view(),
    {
        let mut r: Vec<Span> = Vec::new();
        let mut i: usize = 0;
        while i < self.spans.len()
            invariant
                i <= self.spans@.len(),
                r@ == self.spans@.subrange(0, i as int),
            decreases self.spans@.len() - i,
        {
            r.push(self.spans[i]);
            i = i + 1;
            assert(r@ =~= self.spans@.subrange(0, i as int));
        }
        assert(r@ =~= self.spans@);
        r
    }

    /// Replaces the bytes in `range` by `new`, brings the syntax tree up to
    /// date and recomputes the spans. A range that is reversed, runs past the
    /// end or splits a character is rejected and nothing changes.
    pub fn edit(&mut self, range: Range<usize>, new: &str) -> (r: Result<(), EditError>)
        requires
            old(self).wf(),
            old(self).text().len() + encode_utf8(new@).len() <= usize::MAX,
        ensures
            r is Ok <==> valid_range(old(self).text(), range.start as int, range.end as int),
            r is Ok ==> final(self).text() == splice(
                old(self).text(),
                range.start as int,
                range.end as int,
                encode_utf8(new@),
            ),
            r is Err ==> r == Err::<(), EditError>(EditError::InvalidRange),
            r is Err ==> final(self).text() == old(self).text() && final(self).span_view() == old(
                self,
            ).span_view() && final(self).capture_view() == old(self).capture_view()
                && final(self).has_tree() == old(self).has_tree(),
            final(self).style_view() == old(self).style_view(),
            final(self).wf(),
    {
        let start = range.start;
        let end = range.end;
        let text = self.buffer.as_str();
        if start > end || end > text.as_bytes().len() || !text.is_char_boundary(start)
            || !text.is_char_boundary(end) {
            return Err(EditError::InvalidRange);
        }
        let d = describe_edit(text.as_bytes(), start, end, new.as_bytes());
        if let Some(tree) = &mut self.tree {
            edit_tree(tree, &d);
        }
        replace_range(&mut self.buffer, start, end, new);
        self.update();
        Ok(())
    }
}

/// The spans of a well-formed buffer are ordered by start, and no two of
/// them come from the same syntax node, so no two with the same start do.
pub proof fn lemma_spans_one_per_node(t: &CodeText)
    requires
        t.wf(),
    ensures
        distinct_span_nodes(t.span_view()),
        sorted_by_start(t.span_view()),
{
    lemma_spans_distinct_nodes(t.capture_view(), t.style_view());
}

} // verus!
