//! The sort that a table can be put in, and the order of the cells that
//! rows are sorted by.

use vstd::prelude::*;
use vstd::string::*;

verus! {

/// The direction of a sort.
#[derive(Clone, Copy, Debug, PartialEq, Eq)]
pub enum SortDirection {
    Ascending,
    Descending,
}

/// An active sort: the column whose cells order the rows, and the direction.
#[derive(Clone, Copy, Debug, PartialEq, Eq)]
pub struct SortSpec {
    pub column: usize,
    pub direction: SortDirection,
}

/// What a row is ordered by under one column: a number, or text taken as
/// its UTF-8 bytes.
pub enum Cell {
    Number(int),
    Text(Seq<u8>),
}

/// Lexicographic order on byte strings: the first differing byte decides,
/// and a proper prefix comes first.
pub open spec fn bytes_le(a: Seq<u8>, b: Seq<u8>) -> bool
    decreases a.len(),
{
    if a.len() == 0 {
        true
    } else if b.len() == 0 {
        false
    } else if a[0] != b[0] {
        a[0] < b[0]
    } else {
        bytes_le(a.drop_first(), b.drop_first())
    }
}

/// The order of cells. Numbers are ordered by value and text by its bytes;
/// a number comes before any text.
pub open spec fn cell_le(a: Cell, b: Cell) -> bool {
    match (a, b) {
        (Cell::Number(x), Cell::Number(y)) => x <= y,
        (Cell::Text(s), Cell::Text(t)) => bytes_le(s, t),
        (Cell::Number(_), Cell::Text(_)) => true,
        (Cell::Text(_), Cell::Number(_)) => false,
    }
}

/// Whether a cell `a` may stand before a cell `b` under `direction`.
pub open spec fn cells_in_order(a: Cell, b: Cell, direction: SortDirection) -> bool {
    match direction {
        SortDirection::Ascending => cell_le(a, b),
        SortDirection::Descending => cell_le(b, a),
    }
}

/// Of two byte strings, one is at most the other.
pub proof fn lemma_bytes_le_total(a: Seq<u8>, b: Seq<u8>)
    ensures
        bytes_le(a, b) || bytes_le(b, a),
    decreases a.len(),
{
    if a.len() > 0 && b.len() > 0 && a[0] == b[0] {
        lemma_bytes_le_total(a.drop_first(), b.drop_first());
    }
}

/// The order on byte strings is transitive.
pub proof fn lemma_bytes_le_transitive(a: Seq<u8>, b: Seq<u8>, c: Seq<u8>)
    requires
        bytes_le(a, b),
        bytes_le(b, c),
    ensures
        bytes_le(a, c),
    decreases a.len(),
{
    if a.len() > 0 && b.len() > 0 && c.len() > 0 && a[0] == b[0] && b[0] == c[0] {
        lemma_bytes_le_transitive(a.drop_first(), b.drop_first(), c.drop_first());
    }
}

/// Of two cells, one may stand before the other.
pub proof fn lemma_cells_total(a: Cell, b: Cell, direction: SortDirection)
    ensures
        cells_in_order(a, b, direction) || cells_in_order(b, a, direction),
{
    match (a, b) {
        (Cell::Text(s), Cell::Text(t)) => lemma_bytes_le_total(s, t),
        _ => {},
    }
}

/// The order of cells is transitive.
pub proof fn lemma_cells_transitive(a: Cell, b: Cell, c: Cell, direction: SortDirection)
    requires
        cells_in_order(a, b, direction),
        cells_in_order(b, c, direction),
    ensures
        cells_in_order(a, c, direction),
{
    match (a, b, c) {
        (Cell::Text(s), Cell::Text(t), Cell::Text(u)) => {
            match direction {
                SortDirection::Ascending => lemma_bytes_le_transitive(s, t, u),
                SortDirection::Descending => lemma_bytes_le_transitive(u, t, s),
            }
        },
        _ => {},
    }
}

/// Whether `a` is at most `b` in the order of `str`, which compares the
/// UTF-8 bytes.
pub fn text_le(a: &str, b: &str) -> (le: bool)
    ensures
        le == bytes_le(a.spec_bytes(), b.spec_bytes()),
{
    let x = a.as_bytes();
    let y = b.as_bytes();
    let mut i: usize = 0;
    assert(x@.skip(0) =~= x@ && y@.skip(0) =~= y@);
    while i < x.len() && i < y.len()
        invariant
            i <= x@.len(),
            i <= y@.len(),
            x@ == a.spec_bytes(),
            y@ == b.spec_bytes(),
            bytes_le(x@, y@) == bytes_le(x@.skip(i as int), y@.skip(i as int)),
        decreases x@.len() - i,
    {
        proof {
            let p = x@.skip(i as int);
            let q = y@.skip(i as int);
            assert(p[0] == x@[i as int]);
            assert(q[0] == y@[i as int]);
            assert(p.drop_first() =~= x@.skip(i + 1));
            assert(q.drop_first() =~= y@.skip(i + 1));
        }
        if x[i] != y[i] {
            return x[i] < y[i];
        }
        i += 1;
    }
    i == x.len()
}

/// Whether two numbers stand in order under `direction`.
pub fn numbers_in_order(a: i128, b: i128, direction: SortDirection) -> (ok: bool)
    ensures
        ok == cells_in_order(Cell::Number(a as int), Cell::Number(b as int), direction),
{
    match direction {
        SortDirection::Ascending => a <= b,
        SortDirection::Descending => b <= a,
    }
}

/// Whether two texts stand in order under `direction`.
pub fn texts_in_order(a: &str, b: &str, direction: SortDirection) -> (ok: bool)
    ensures
        ok == cells_in_order(
            Cell::Text(a.spec_bytes()),
            Cell::Text(b.spec_bytes()),
            direction,
        ),
{
    match direction {
        SortDirection::Ascending => text_le(a, b),
        SortDirection::Descending => text_le(b, a),
    }
}

} // verus!
