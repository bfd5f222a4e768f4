//! Byte offsets to zero-based (line, column) positions, and the description
//! of an edit that a syntax tree needs to follow it.

use vstd::prelude::*;

verus! {

/// The line-break byte.
pub const NEWLINE: u8 = 10;

/// A zero-based (line, column) coordinate; the column counts bytes since
/// the last line break.
#[derive(Clone, Copy, Debug, PartialEq, Eq, Structural)]
pub struct Position {
    pub row: usize,
    pub column: usize,
}

/// Why a position could not be computed.
#[derive(Clone, Copy, Debug, PartialEq, Eq, Structural)]
pub enum PositionError {
    /// The offset lies past the end of the buffer.
    OutOfRange,
}

/// The coordinate reached from `(row, col)` by stepping over byte `b`.
pub open spec fn step(p: (nat, nat), b: u8) -> (nat, nat) {
    if b == NEWLINE {
        (p.0 + 1, 0nat)
    } else {
        (p.0, p.1 + 1)
    }
}

/// The coordinate reached from `p` by scanning every byte of `s` in turn.
pub open spec fn scan(p: (nat, nat), s: Seq<u8>) -> (nat, nat)
    decreases s.len(),
{
    if s.len() == 0 {
        p
    } else {
        step(scan(p, s.drop_last()), s.last())
    }
}

/// The coordinate of byte offset `n` in `buf`, counted from line 0, column 0.
pub open spec fn position_of(buf: Seq<u8>, n: int) -> (nat, nat) {
    scan((0, 0), buf.subrange(0, n))
}

impl Position {
    pub open spec fn view_pair(self) -> (nat, nat) {
        (self.row as nat, self.column as nat)
    }
}

/// Scanning moves the row and the column forward by at most one per byte.
pub proof fn lemma_scan_bounds(p: (nat, nat), s: Seq<u8>)
    ensures
        scan(p, s).0 <= p.0 + s.len(),
        scan(p, s).1 <= p.1 + s.len(),
    decreases s.len(),
{
    if s.len() > 0 {
        lemma_scan_bounds(p, s.drop_last());
    }
}

/// Scanning two pieces one after the other is scanning their concatenation.
pub proof fn lemma_scan_concat(p: (nat, nat), a: Seq<u8>, b: Seq<u8>)
    ensures
        scan(scan(p, a), b) == scan(p, a + b),
    decreases b.len(),
{
    if b.len() == 0 {
        assert(a + b =~= a);
    } else {
        lemma_scan_concat(p, a, b.drop_last());
        assert((a + b).drop_last() =~= a + b.drop_last());
    }
}

/// Offset 0 of any buffer is line 0, column 0.
pub proof fn lemma_origin(buf: Seq<u8>)
    ensures
        position_of(buf, 0) == (0nat, 0nat),
{
    assert(buf.subrange(0, 0).len() == 0);
}

/// The coordinate reached from `start` by scanning `bytes[from..to]`.
pub fn advance(start: Position, bytes: &[u8], from: usize, to: usize) -> (r: Position)
    requires
        from <= to <= bytes@.len(),
        start.row + (to - from) <= usize::MAX,
        start.column + (to - from) <= usize::MAX,
    ensures
        r.view_pair() == scan(start.view_pair(), bytes@.subrange(from as int, to as int)),
{
    let mut row: usize = start.row;
    let mut column: usize = start.column;
    let mut i: usize = from;
    while i < to
        invariant
            from <= i <= to <= bytes@.len(),
            start.row + (to - from) <= usize::MAX,
            start.column + (to - from) <= usize::MAX,
            (row as nat, column as nat) == scan(
                start.view_pair(),
                bytes@.subrange(from as int, i as int),
            ),
        decreases to - i,
    {
        proof {
            lemma_scan_bounds(start.view_pair(), bytes@.subrange(from as int, i as int));
            assert(bytes@.subrange(from as int, i + 1).drop_last() =~= bytes@.subrange(
                from as int,
                i as int,
            ));
        }
        if bytes[i] == NEWLINE {
            row = row + 1;
            column = 0;
        } else {
            column = column + 1;
        }
        i = i + 1;
    }
    Position { row, column }
}

/// The (line, column) of byte `offset` in `buf`, scanning from the start.
pub fn translate(buf: &[u8], offset: usize) -> (r: Result<Position, PositionError>)
    ensures
        offset <= buf@.len() ==> r is Ok && r->Ok_0.view_pair() == position_of(
            buf@,
            offset as int,
        ),
        offset > buf@.len() ==> r == Err::<Position, PositionError>(PositionError::OutOfRange),
{
    if offset > buf.len() {
        Err(PositionError::OutOfRange)
    } else {
        Ok(advance(Position { row: 0, column: 0 }, buf, 0, offset))
    }
}

/// What a syntax tree needs to follow an edit: byte offsets and the matching
/// coordinates of the edit's start, of the end of the replaced text, and of
/// the end of the replacement.
#[derive(Clone, Copy, Debug, PartialEq, Eq, Structural)]
pub struct EditDescriptor {
    pub start_byte: usize,
    pub old_end_byte: usize,
    pub new_end_byte: usize,
    pub start_position: Position,
    pub old_end_position: Position,
    pub new_end_position: Position,
}

/// The bytes of `buf` with `buf[start..end]` replaced by `new`.
pub open spec fn splice(buf: Seq<u8>, start: int, end: int, new: Seq<u8>) -> Seq<u8> {
    buf.subrange(0, start) + new + buf.subrange(end, buf.len() as int)
}

/// Describes replacing `buf[start..end]` by `new`, from the bytes before the edit.
pub fn describe_edit(buf: &[u8], start: usize, end: usize, new: &[u8]) -> (d: EditDescriptor)
    requires
        start <= end <= buf@.len(),
        buf@.len() + new@.len() <= usize::MAX,
    ensures
        d.start_byte == start,
        d.old_end_byte == end,
        d.new_end_byte == start + new@.len(),
        d.start_position.view_pair() == position_of(buf@, start as int),
        d.old_end_position.view_pair() == position_of(buf@, end as int),
        d.new_end_position.view_pair() == scan(position_of(buf@, start as int), new@),
        d.new_end_position.view_pair() == position_of(
            splice(buf@, start as int, end as int, new@),
            start + new@.len(),
        ),
{
    let origin = Position { row: 0, column: 0 };
    let start_position = advance(origin, buf, 0, start);
    proof {
        lemma_scan_bounds((0, 0), buf@.subrange(0, start as int));
        lemma_scan_concat((0, 0), buf@.subrange(0, start as int), buf@.subrange(start as int, end as int));
        assert(buf@.subrange(0, start as int) + buf@.subrange(start as int, end as int)
            =~= buf@.subrange(0, end as int));
        lemma_scan_concat((0, 0), buf@.subrange(0, start as int), new@);
        let after = splice(buf@, start as int, end as int, new@);
        assert(after.subrange(0, start + new@.len()) =~= buf@.subrange(0, start as int) + new@);
        assert(new@.subrange(0, new@.len() as int) =~= new@);
    }
    let old_end_position = advance(start_position, buf, start, end);
    let new_end_position = advance(start_position, new, 0, new.len());
    EditDescriptor {
        start_byte: start,
        old_end_byte: end,
        new_end_byte: start + new.len(),
        start_position,
        old_end_position,
        new_end_position,
    }
}

} // verus!
