//! From the captures of a pattern query to the style spans of a buffer:
//! one capture per syntax node, each resolved to a style, ordered by start.

use crate::style::Style;
use vstd::prelude::*;
use vstd::utf8::{encode_utf8, is_char_boundary};

verus! {

/// One match of the query: a syntax node (its identity and byte range) and
/// the index of the capture name it was captured under.
#[derive(Clone, Copy, Debug, PartialEq, Eq, Structural)]
pub struct Capture {
    pub node: usize,
    pub start: usize,
    pub end: usize,
    pub index: u32,
}

/// A byte range of the buffer with the style to paint it in, and the
/// syntax node it comes from.
#[derive(Clone, Copy, Debug, PartialEq, Eq, Structural)]
pub struct Span {
    pub node: usize,
    pub start: usize,
    pub end: usize,
    pub style: Style,
}

/// Whether some capture of `s` is of node `n`.
pub open spec fn has_node(s: Seq<Capture>, n: usize) -> bool {
    exists|j: int| 0 <= j < s.len() && s[j].node == n
}

/// The captures of `s` whose node no earlier capture has, in their order.
pub open spec fn dedup_spec(s: Seq<Capture>) -> Seq<Capture>
    decreases s.len(),
{
    if s.len() == 0 {
        s
    } else if has_node(s.drop_last(), s.last().node) {
        dedup_spec(s.drop_last())
    } else {
        dedup_spec(s.drop_last()).push(s.last())
    }
}

/// No two captures of `s` are of the same node.
pub open spec fn distinct_capture_nodes(s: Seq<Capture>) -> bool {
    forall|i: int, j: int| 0 <= i < s.len() && 0 <= j < s.len() && i != j ==> s[i].node != s[j].node
}

/// No two spans of `s` come from the same node.
pub open spec fn distinct_span_nodes(s: Seq<Span>) -> bool {
    forall|i: int, j: int| 0 <= i < s.len() && 0 <= j < s.len() && i != j ==> s[i].node != s[j].node
}

/// A node is captured in the deduplicated sequence exactly when it is in the sequence given.
pub proof fn lemma_dedup_nodes(s: Seq<Capture>, n: usize)
    ensures
        has_node(dedup_spec(s), n) == has_node(s, n),
    decreases s.len(),
{
    if s.len() > 0 {
        let p = s.drop_last();
        lemma_dedup_nodes(p, n);
        let d = dedup_spec(p);
        if has_node(s, n) && !has_node(p, n) {
            let j = choose|j: int| 0 <= j < s.len() && s[j].node == n;
            if j < p.len() {
                assert(p[j].node == n);
            }
            assert(s.last().node == n);
        }
        if has_node(p, n) {
            let j = choose|j: int| 0 <= j < p.len() && p[j].node == n;
            assert(s[j].node == n);
        }
        if !has_node(p, s.last().node) {
            let e = d.push(s.last());
            if has_node(d, n) {
                let j = choose|j: int| 0 <= j < d.len() && d[j].node == n;
                assert(e[j].node == n);
            }
            if has_node(e, n) && !has_node(d, n) {
                let j = choose|j: int| 0 <= j < e.len() && e[j].node == n;
                if j < d.len() {
                    assert(d[j].node == n);
                }
                assert(s.last().node == n);
            }
            if has_node(s, n) {
                if n == s.last().node {
                    assert(e[d.len() as int].node == n);
                }
            }
        }
    }
}

/// No two captures kept by deduplication are of the same node.
pub proof fn lemma_dedup_distinct(s: Seq<Capture>)
    ensures
        distinct_capture_nodes(dedup_spec(s)),
    decreases s.len(),
{
    if s.len() > 0 {
        let p = s.drop_last();
        lemma_dedup_distinct(p);
        lemma_dedup_nodes(p, s.last().node);
        let d = dedup_spec(p);
        if !has_node(p, s.last().node) {
            let e = d.push(s.last());
            assert forall|i: int, j: int|
                0 <= i < e.len() && 0 <= j < e.len() && i != j implies e[i].node != e[j].node by {
                if i == d.len() {
                    assert(e[j] == d[j]);
                } else if j == d.len() {
                    assert(e[i] == d[i]);
                }
            }
        }
    }
}

/// Keeps the first capture of each node and drops the later ones, keeping order.
pub fn dedup_captures(raw: &[Capture]) -> (r: Vec<Capture>)
    ensures
        r@ == dedup_spec(raw@),
        distinct_capture_nodes(r@),
{
    let mut r: Vec<Capture> = Vec::new();
    let mut i: usize = 0;
    while i < raw.len()
        invariant
            i <= raw@.len(),
            r@ == dedup_spec(raw@.subrange(0, i as int)),
        decreases raw@.len() - i,
    {
        let c = raw[i];
        let mut seen = false;
        let mut k: usize = 0;
        while k < r.len()
            invariant
                k <= r@.len(),
                seen == (exists|j: int| 0 <= j < k && r@[j].node == c.node),
            decreases r@.len() - k,
        {
            if r[k].node == c.node {
                seen = true;
            }
            k = k + 1;
        }
        proof {
            let p = raw@.subrange(0, i as int);
            assert(raw@.subrange(0, i + 1).drop_last() =~= p);
            assert(raw@.subrange(0, i + 1).last() == c);
            lemma_dedup_nodes(p, c.node);
        }
        if !seen {
            r.push(c);
        }
        i = i + 1;
    }
    proof {
        assert(raw@.subrange(0, raw@.len() as int) =~= raw@);
        lemma_dedup_distinct(raw@);
    }
    r
}

/// The style a capture index selects; the fallback style past the table's end.
pub open spec fn style_at(styles: Seq<Style>, index: u32) -> Style {
    if (index as int) < styles.len() {
        styles[index as int]
    } else {
        Style::Underline
    }
}

/// The span that capture `c` paints.
pub open spec fn span_of(c: Capture, styles: Seq<Style>) -> Span {
    Span { node: c.node, start: c.start, end: c.end, style: style_at(styles, c.index) }
}

/// `s` with `x` placed after every span that starts no later than `x`,
/// counting from the end.
pub open spec fn insert_by_start(s: Seq<Span>, x: Span) -> Seq<Span>
    decreases s.len(),
{
    if s.len() == 0 || s.last().start <= x.start {
        s.push(x)
    } else {
        insert_by_start(s.drop_last(), x).push(s.last())
    }
}

/// `s` ordered by start offset; spans with equal starts keep their order.
pub open spec fn sort_by_start(s: Seq<Span>) -> Seq<Span>
    decreases s.len(),
{
    if s.len() == 0 {
        s
    } else {
        insert_by_start(sort_by_start(s.drop_last()), s.last())
    }
}

/// Whether the starts of `s` never decrease.
pub open spec fn sorted_by_start(s: Seq<Span>) -> bool {
    forall|i: int, j: int| 0 <= i <= j < s.len() ==> s[i].start <= s[j].start
}

/// The spans of a capture sequence: one per node, first capture wins,
/// each with its resolved style, ordered by start.
pub open spec fn spans_spec(caps: Seq<Capture>, styles: Seq<Style>) -> Seq<Span> {
    sort_by_start(dedup_spec(caps).map_values(|c: Capture| span_of(c, styles)))
}

proof fn lemma_insert_at(s: Seq<Span>, x: Span, k: int)
    requires
        0 <= k <= s.len(),
        forall|j: int| k <= j < s.len() ==> s[j].start > x.start,
        k == 0 || s[k - 1].start <= x.start,
    ensures
        insert_by_start(s, x) == s.insert(k, x),
    decreases s.len(),
{
    if s.len() == k {
        assert(s.insert(k, x) =~= s.push(x));
    } else {
        lemma_insert_at(s.drop_last(), x, k);
        assert(s.drop_last().insert(k, x).push(s.last()) =~= s.insert(k, x));
    }
}

proof fn lemma_insert_props(s: Seq<Span>, x: Span)
    ensures
        insert_by_start(s, x).len() == s.len() + 1,
        forall|y: Span| #[trigger] insert_by_start(s, x).contains(y) <==> (s.contains(y) || y == x),
        distinct_span_nodes(s) && (forall|j: int| 0 <= j < s.len() ==> s[j].node != x.node)
            ==> distinct_span_nodes(insert_by_start(s, x)),
        sorted_by_start(s) ==> sorted_by_start(insert_by_start(s, x)),
    decreases s.len(),
{
    let e = insert_by_start(s, x);
    if s.len() == 0 || s.last().start <= x.start {
        assert forall|y: Span| e.contains(y) <==> (s.contains(y) || y == x) by {
            if e.contains(y) && y != x {
                let i = choose|i: int| 0 <= i < e.len() && e[i] == y;
                assert(s[i] == y);
            }
            if s.contains(y) {
                let i = choose|i: int| 0 <= i < s.len() && s[i] == y;
                assert(e[i] == y);
            }
            if y == x {
                assert(e[s.len() as int] == y);
            }
        }
        if sorted_by_start(s) {
            assert forall|i: int, j: int| 0 <= i <= j < e.len() implies e[i].start <= e[j].start by {
                if j == s.len() && i < j {
                    assert(s[i].start <= s[s.len() - 1].start);
                }
            }
        }
    } else {
        let p = s.drop_last();
        let l = s.last();
        lemma_insert_props(p, x);
        let q = insert_by_start(p, x);
        assert(e == q.push(l));
        assert forall|y: Span| e.contains(y) <==> (s.contains(y) || y == x) by {
            if e.contains(y) && y != l {
                let i = choose|i: int| 0 <= i < e.len() && e[i] == y;
                assert(q[i] == y);
                assert(q.contains(y));
                if y != x {
                    assert(p.contains(y));
                    let j = choose|j: int| 0 <= j < p.len() && p[j] == y;
                    assert(s[j] == y);
                }
            }
            if e.contains(y) && y == l {
                assert(s[s.len() - 1] == y);
            }
            if s.contains(y) && y != l {
                let i = choose|i: int| 0 <= i < s.len() && s[i] == y;
                assert(p[i] == y);
                assert(p.contains(y));
                assert(q.contains(y));
                let j = choose|j: int| 0 <= j < q.len() && q[j] == y;
                assert(e[j] == y);
            }
            if y == l {
                assert(e[q.len() as int] == y);
            }
            if y == x {
                assert(q.contains(y));
                let j = choose|j: int| 0 <= j < q.len() && q[j] == y;
                assert(e[j] == y);
            }
        }
        if distinct_span_nodes(s) && (forall|j: int| 0 <= j < s.len() ==> s[j].node != x.node) {
            assert(distinct_span_nodes(p));
            assert forall|i: int, j: int|
                0 <= i < e.len() && 0 <= j < e.len() && i != j implies e[i].node != e[j].node by {
                if i == q.len() || j == q.len() {
                    let k = if i == q.len() { j } else { i };
                    assert(q.contains(q[k]));
                    if q[k] != x {
                        assert(p.contains(q[k]));
                        let m = choose|m: int| 0 <= m < p.len() && p[m] == q[k];
                        assert(s[m] == q[k]);
                    }
                    assert(s[s.len() - 1] == l);
                }
            }
        }
        if sorted_by_start(s) {
            assert(sorted_by_start(p));
            assert forall|i: int, j: int| 0 <= i <= j < e.len() implies e[i].start <= e[j].start by {
                if j == q.len() && i < j {
                    assert(q.contains(q[i]));
                    if q[i] != x {
                        assert(p.contains(q[i]));
                        let m = choose|m: int| 0 <= m < p.len() && p[m] == q[i];
                        assert(s[m] == q[i]);
                    }
                }
            }
        }
    }
}

/// Sorting by start reorders the spans and keeps each one: it is ordered by
/// start, holds exactly the spans given, and keeps distinct nodes distinct.
pub proof fn lemma_sort_props(s: Seq<Span>)
    ensures
        sort_by_start(s).len() == s.len(),
        sorted_by_start(sort_by_start(s)),
        forall|y: Span| #[trigger] sort_by_start(s).contains(y) <==> s.contains(y),
        distinct_span_nodes(s) ==> distinct_span_nodes(sort_by_start(s)),
    decreases s.len(),
{
    if s.len() > 0 {
        let p = s.drop_last();
        let l = s.last();
        lemma_sort_props(p);
        let q = sort_by_start(p);
        lemma_insert_props(q, l);
        assert forall|y: Span| sort_by_start(s).contains(y) <==> s.contains(y) by {
            if p.contains(y) {
                let i = choose|i: int| 0 <= i < p.len() && p[i] == y;
                assert(s[i] == y);
            }
            if s.contains(y) && y != l {
                let i = choose|i: int| 0 <= i < s.len() && s[i] == y;
                assert(p[i] == y);
            }
            if y == l {
                assert(s[s.len() - 1] == y);
            }
        }
        if distinct_span_nodes(s) {
            assert(distinct_span_nodes(p));
            assert forall|j: int| 0 <= j < q.len() implies q[j].node != l.node by {
                assert(q.contains(q[j]));
                assert(p.contains(q[j]));
                let m = choose|m: int| 0 <= m < p.len() && p[m] == q[j];
                assert(s[m] == q[j]);
                assert(s[s.len() - 1] == l);
            }
        }
    }
}

/// No two spans of a capture sequence come from the same node, so in
/// particular no two with the same start do; and they are ordered by start.
pub proof fn lemma_spans_distinct_nodes(caps: Seq<Capture>, styles: Seq<Style>)
    ensures
        distinct_span_nodes(spans_spec(caps, styles)),
        sorted_by_start(spans_spec(caps, styles)),
{
    let d = dedup_spec(caps);
    lemma_dedup_distinct(caps);
    let m = d.map_values(|c: Capture| span_of(c, styles));
    assert(distinct_span_nodes(m));
    lemma_sort_props(m);
}

/// The spans of `caps`: first capture of each node kept, its style looked up
/// in `styles` by capture index, ordered by start.
pub fn compute_spans(caps: &[Capture], styles: &[Style]) -> (r: Vec<Span>)
    ensures
        r@ == spans_spec(caps@, styles@),
{
    let d = dedup_captures(caps);
    let mut r: Vec<Span> = Vec::new();
    let mut i: usize = 0;
    let ghost m = d@.map_values(|c: Capture| span_of(c, styles@));
    while i < d.len()
        invariant
            i <= d@.len(),
            m == d@.map_values(|c: Capture| span_of(c, styles@)),
            r@ == sort_by_start(m.subrange(0, i as int)),
        decreases d@.len() - i,
    {
        let c = d[i];
        let style = if (c.index as usize) < styles.len() {
            styles[c.index as usize]
        } else {
            Style::Underline
        };
        let x = Span { node: c.node, start: c.start, end: c.end, style };
        let mut k: usize = r.len();
        while k > 0 && r[k - 1].start > x.start
            invariant
                k <= r@.len(),
                forall|j: int| k <= j < r@.len() ==> r@[j].start > x.start,
            decreases k,
        {
            k = k - 1;
        }
        proof {
            lemma_insert_at(r@, x, k as int);
            assert(m.subrange(0, i + 1).drop_last() =~= m.subrange(0, i as int));
            assert(m.subrange(0, i + 1).last() == x);
        }
        r.insert(k, x);
        i = i + 1;
    }
    proof {
        assert(m.subrange(0, d@.len() as int) =~= m);
    }
    r
}

/// Whether the range `start..end` lies inside `text`, on character boundaries.
pub open spec fn range_fits(start: usize, end: usize, text: Seq<u8>) -> bool {
    &&& start <= end <= text.len()
    &&& is_char_boundary(text, start as int)
    &&& is_char_boundary(text, end as int)
}

/// The captures of `s` whose node range lies inside `text`, in order.
pub open spec fn within_spec(s: Seq<Capture>, text: Seq<u8>) -> Seq<Capture>
    decreases s.len(),
{
    if s.len() == 0 {
        s
    } else if range_fits(s.last().start, s.last().end, text) {
        within_spec(s.drop_last(), text).push(s.last())
    } else {
        within_spec(s.drop_last(), text)
    }
}

/// Every capture kept by `within_spec` lies inside the text.
pub proof fn lemma_within_fits(s: Seq<Capture>, text: Seq<u8>)
    ensures
        forall|i: int| 0 <= i < within_spec(s, text).len() ==> range_fits(
            #[trigger] within_spec(s, text)[i].start,
            within_spec(s, text)[i].end,
            text,
        ),
    decreases s.len(),
{
    if s.len() > 0 {
        let p = s.drop_last();
        lemma_within_fits(p, text);
        let w = within_spec(p, text);
        if range_fits(s.last().start, s.last().end, text) {
            assert forall|i: int| 0 <= i < w.len() + 1 implies range_fits(
                #[trigger] w.push(s.last())[i].start,
                w.push(s.last())[i].end,
                text,
            ) by {
                if i < w.len() {
                    assert(w.push(s.last())[i] == w[i]);
                }
            }
        }
    }
}

/// Keeps the captures whose node range lies inside `text` on character
/// boundaries, in order.
pub fn captures_within(raw: &[Capture], text: &str) -> (r: Vec<Capture>)
    ensures
        r@ == within_spec(raw@, encode_utf8(text@)),
{
    let mut r: Vec<Capture> = Vec::new();
    let mut i: usize = 0;
    let n = text.as_bytes().len();
    while i < raw.len()
        invariant
            i <= raw@.len(),
            n == encode_utf8(text@).len(),
            r@ == within_spec(raw@.subrange(0, i as int), encode_utf8(text@)),
        decreases raw@.len() - i,
    {
        let c = raw[i];
        proof {
            assert(raw@.subrange(0, i + 1).drop_last() =~= raw@.subrange(0, i as int));
            assert(raw@.subrange(0, i + 1).last() == c);
        }
        if c.start <= c.end && c.end <= n && text.is_char_boundary(c.start)
            && text.is_char_boundary(c.end) {
            r.push(c);
        }
        i = i + 1;
    }
    proof {
        assert(raw@.subrange(0, raw@.len() as int) =~= raw@);
    }
    r
}

/// Every capture kept by deduplication is one of the captures given.
pub proof fn lemma_dedup_subset(s: Seq<Capture>)
    ensures
        forall|i: int| 0 <= i < dedup_spec(s).len() ==> s.contains(#[trigger] dedup_spec(s)[i]),
    decreases s.len(),
{
    if s.len() > 0 {
        let p = s.drop_last();
        lemma_dedup_subset(p);
        let d = dedup_spec(s);
        assert forall|i: int| 0 <= i < d.len() implies s.contains(#[trigger] d[i]) by {
            if i < dedup_spec(p).len() {
                assert(d[i] == dedup_spec(p)[i]);
                assert(p.contains(d[i]));
                let j = choose|j: int| 0 <= j < p.len() && p[j] == d[i];
                assert(s[j] == d[i]);
            } else {
                assert(s[s.len() - 1] == d[i]);
            }
        }
    }
}

/// When every capture lies inside `text`, so does every span made from them.
pub proof fn lemma_spans_fit(caps: Seq<Capture>, styles: Seq<Style>, text: Seq<u8>)
    requires
        forall|i: int| 0 <= i < caps.len() ==> range_fits(#[trigger] caps[i].start, caps[i].end, text),
    ensures
        forall|i: int| 0 <= i < spans_spec(caps, styles).len() ==> range_fits(
            #[trigger] spans_spec(caps, styles)[i].start,
            spans_spec(caps, styles)[i].end,
            text,
        ),
{
    let d = dedup_spec(caps);
    lemma_dedup_subset(caps);
    let m = d.map_values(|c: Capture| span_of(c, styles));
    lemma_sort_props(m);
    let r = sort_by_start(m);
    assert forall|i: int| 0 <= i < r.len() implies range_fits(#[trigger] r[i].start, r[i].end, text) by {
        assert(r.contains(r[i]));
        assert(m.contains(r[i]));
        let j = choose|j: int| 0 <= j < m.len() && m[j] == r[i];
        assert(caps.contains(d[j]));
        let k = choose|k: int| 0 <= k < caps.len() && caps[k] == d[j];
        assert(range_fits(caps[k].start, caps[k].end, text));
    }
}

} // verus!
