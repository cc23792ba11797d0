//! A scan of pairs, row by row, that breaks off where nothing better is to come.

use crate::order::{before, key_before, lemma_key_total, lemma_key_transitive};
use vstd::prelude::*;

verus! {

/// The pairs of a scan. A pair without a key cannot be chosen; the head of a pair is what
/// its key starts with, whether it has one or not.
pub struct Grid {
    pub rows: nat,
    pub columns: nat,
    pub row_open: spec_fn(int) -> bool,
    pub column_open: spec_fn(int) -> bool,
    pub head: spec_fn(int, int) -> Seq<i64>,
    pub key: spec_fn(int, int) -> Option<Seq<i64>>,
    /// Whether the scan breaks off.
    pub breaks: bool,
}

impl Grid {
    /// Whether the scan breaks off at a pair: its head comes behind that of the best pair.
    pub open spec fn is_past(self, row: int, column: int, best: Option<(int, int)>) -> bool {
        self.breaks && (best matches Some(best) && key_before(
            (self.head)(best.0, best.1),
            (self.head)(row, column),
        ))
    }

    /// Whether a pair is better than the best one before it.
    pub open spec fn is_better(self, row: int, column: int, best: Option<(int, int)>) -> bool {
        (self.key)(row, column) matches Some(key) && (best matches Some(best) ==> key_before(
            key,
            (self.key)(best.0, best.1)->0,
        ))
    }

    /// The best pair after the rest of a row.
    pub open spec fn after_row(self, row: int, column: int, best: Option<(int, int)>) -> Option<
        (int, int),
    >
        decreases self.columns - column,
    {
        if column >= self.columns {
            best
        } else if !(self.column_open)(column) {
            self.after_row(row, column + 1, best)
        } else if self.is_past(row, column, best) {
            best
        } else if self.is_better(row, column, best) {
            self.after_row(row, column + 1, Some((row, column)))
        } else {
            self.after_row(row, column + 1, best)
        }
    }

    /// The best pair after the remaining rows. A row is not looked at, nor any behind it,
    /// if its first pair is past the best one.
    pub open spec fn after_rows(self, row: int, best: Option<(int, int)>) -> Option<(int, int)>
        decreases self.rows - row,
    {
        if row >= self.rows {
            best
        } else if !(self.row_open)(row) {
            self.after_rows(row + 1, best)
        } else if self.columns > 0 && self.is_past(row, 0, best) {
            best
        } else {
            self.after_rows(row + 1, self.after_row(row, 0, best))
        }
    }

    /// The pair that the scan finds.
    pub open spec fn found(self) -> Option<(int, int)> {
        self.after_rows(0, None)
    }

    /// Only pairs of open rows and columns have keys, and a key starts with its head.
    pub open spec fn is_consistent(self) -> bool {
        forall|l: int, r: int|
            0 <= l < self.rows && 0 <= r < self.columns ==> ((#[trigger] (self.key)(l, r)) matches Some(
                key,
            ) ==> {
                &&& (self.row_open)(l)
                &&& (self.column_open)(r)
                &&& starts_with(key, (self.head)(l, r))
            })
    }

    /// Heads do not descend along a row, nor down the first column.
    pub open spec fn heads_ascend(self) -> bool {
        &&& forall|l: int, r: int, later: int|
            0 <= l < self.rows && 0 <= r <= later < self.columns ==> !key_before(
                #[trigger] (self.head)(l, later),
                #[trigger] (self.head)(l, r),
            )
        &&& forall|l: int, later: int|
            0 <= l <= later < self.rows ==> !key_before(
                #[trigger] (self.head)(later, 0),
                #[trigger] (self.head)(l, 0),
            )
        &&& forall|l: int, r: int, other: int, column: int|
            0 <= l < self.rows && 0 <= r < self.columns && 0 <= other < self.rows && 0 <= column
                < self.columns ==> (#[trigger] (self.head)(l, r)).len() == (
            #[trigger] (self.head)(other, column)).len()
    }
}

pub open spec fn starts_with(key: Seq<i64>, head: Seq<i64>) -> bool {
    head.len() <= key.len() && key.take(head.len() as int) == head
}

/// Whether `found` is the first least of the keys of all pairs of positions.
pub open spec fn is_least_pair(
    keys: spec_fn(int, int) -> Option<Seq<i64>>,
    rows: nat,
    columns: nat,
    left: int,
    right: int,
) -> bool {
    &&& 0 <= left < rows
    &&& 0 <= right < columns
    &&& keys(left, right) is Some
    &&& forall|l: int, r: int|
        0 <= l < rows && 0 <= r < columns && (#[trigger] keys(l, r)) is Some ==> {
            &&& !key_before(keys(l, r)->0, keys(left, right)->0)
            &&& l < left || (l == left && r < right) ==> key_before(
                keys(left, right)->0,
                keys(l, r)->0,
            )
        }
}

/// What is known of one pair.
pub struct Cell {
    pub head: Vec<i64>,
    pub key: Option<Vec<i64>>,
}

impl Cell {
    /// Whether the cell is that of a pair.
    pub open spec fn is_at(&self, grid: Grid, row: int, column: int) -> bool {
        &&& self.head@ == (grid.head)(row, column)
        &&& match self.key {
            Some(key) => (grid.key)(row, column) == Some(key@),
            None => (grid.key)(row, column) is None,
        }
    }
}

/// Whether a pair can be looked up, always with what the grid says.
pub open spec fn is_cell<F: Fn(usize, usize) -> Cell>(
    cell: &F,
    grid: Grid,
    row: usize,
    column: usize,
) -> bool {
    &&& call_requires(*cell, (row, column))
    &&& forall|value: Cell|
        #[trigger] call_ensures(*cell, (row, column), value) ==> value.is_at(
            grid,
            row as int,
            column as int,
        )
}

/// The place of a pair.
pub open spec fn place_view(place: Option<(usize, usize)>) -> Option<(int, int)> {
    match place {
        Some(place) => Some((place.0 as int, place.1 as int)),
        None => None,
    }
}

/// The best pair so far.
struct Best {
    place: (usize, usize),
    head: Vec<i64>,
    key: Vec<i64>,
}

impl Best {
    spec fn is_best(&self, grid: Grid) -> bool {
        &&& self.place.0 < grid.rows && self.place.1 < grid.columns
        &&& self.head@ == (grid.head)(self.place.0 as int, self.place.1 as int)
        &&& (grid.key)(self.place.0 as int, self.place.1 as int) == Some(self.key@)
    }
}

spec fn best_view(best: Option<Best>) -> Option<(int, int)> {
    match best {
        Some(best) => Some((best.place.0 as int, best.place.1 as int)),
        None => None,
    }
}

fn scan_row<F: Fn(usize, usize) -> Cell>(
    columns: &Vec<bool>,
    breaks: bool,
    cell: &F,
    row: usize,
    held: Option<Best>,
    Ghost(grid): Ghost<Grid>,
) -> (after: Option<Best>)
    requires
        row < grid.rows,
        columns@.len() == grid.columns,
        breaks == grid.breaks,
        forall|r: int| 0 <= r < columns@.len() ==> #[trigger] columns@[r] == (grid.column_open)(r),
        forall|l: usize, r: usize|
            l < grid.rows && r < grid.columns ==> #[trigger] is_cell(cell, grid, l, r),
        held matches Some(best) ==> best.is_best(grid),
    ensures
        best_view(after) == grid.after_row(row as int, 0, best_view(held)),
        after matches Some(best) ==> best.is_best(grid),
{
    let ghost start = best_view(held);
    let mut best = held;
    let mut column: usize = 0;
    while column < columns.len()
        invariant
            row < grid.rows,
            start == best_view(held),
            columns@.len() == grid.columns,
            breaks == grid.breaks,
            forall|r: int|
                0 <= r < columns@.len() ==> #[trigger] columns@[r] == (grid.column_open)(r),
            forall|l: usize, r: usize|
                l < grid.rows && r < grid.columns ==> #[trigger] is_cell(cell, grid, l, r),
            column <= columns@.len(),
            best matches Some(best) ==> best.is_best(grid),
            grid.after_row(row as int, 0, start) == grid.after_row(
                row as int,
                column as int,
                best_view(best),
            ),
        decreases columns@.len() - column,
    {
        assert(columns@[column as int] == (grid.column_open)(column as int));
        if columns[column] {
            assert(is_cell(cell, grid, row, column));
            let found = cell(row, column);
            assert(found.is_at(grid, row as int, column as int));
            let (past, better) = match (&best, &found.key) {
                (Some(best), Some(key)) => (
                    breaks && before(&best.head, &found.head),
                    before(key, &best.key),
                ),
                (Some(best), None) => (breaks && before(&best.head, &found.head), false),
                (None, Some(_)) => (false, true),
                (None, None) => (false, false),
            };
            assert(past == grid.is_past(row as int, column as int, best_view(best)));
            assert(better == grid.is_better(row as int, column as int, best_view(best)));
            if past {
                return best;
            }
            if better {
                if let Some(key) = found.key {
                    best = Some(Best { place: (row, column), head: found.head, key });
                }
            }
        }
        column += 1;
    }
    best
}

/// Scans the pairs.
pub(crate) fn scan_pairs<F: Fn(usize, usize) -> Cell>(
    rows: &Vec<bool>,
    columns: &Vec<bool>,
    breaks: bool,
    cell: &F,
    Ghost(grid): Ghost<Grid>,
) -> (found: Option<(usize, usize)>)
    requires
        rows@.len() == grid.rows,
        columns@.len() == grid.columns,
        breaks == grid.breaks,
        forall|l: int| 0 <= l < rows@.len() ==> #[trigger] rows@[l] == (grid.row_open)(l),
        forall|r: int| 0 <= r < columns@.len() ==> #[trigger] columns@[r] == (grid.column_open)(r),
        forall|l: usize, r: usize|
            l < grid.rows && r < grid.columns ==> #[trigger] is_cell(cell, grid, l, r),
    ensures
        place_view(found) == grid.found(),
        found matches Some((left, right)) ==> left < rows@.len() && right < columns@.len(),
{
    let mut best: Option<Best> = None;
    let mut row: usize = 0;
    while row < rows.len()
        invariant
            rows@.len() == grid.rows,
            columns@.len() == grid.columns,
            breaks == grid.breaks,
            forall|l: int| 0 <= l < rows@.len() ==> #[trigger] rows@[l] == (grid.row_open)(l),
            forall|r: int|
                0 <= r < columns@.len() ==> #[trigger] columns@[r] == (grid.column_open)(r),
            forall|l: usize, r: usize|
                l < grid.rows && r < grid.columns ==> #[trigger] is_cell(cell, grid, l, r),
            row <= rows@.len(),
            best matches Some(best) ==> best.is_best(grid),
            grid.found() == grid.after_rows(row as int, best_view(best)),
        decreases rows@.len() - row,
    {
        assert(rows@[row as int] == (grid.row_open)(row as int));
        if rows[row] {
            let past = match &best {
                Some(best) if breaks && columns.len() > 0 => {
                    assert(is_cell(cell, grid, row, 0));
                    before(&best.head, &cell(row, 0).head)
                },
                _ => false,
            };
            if past {
                return match best {
                    Some(best) => Some(best.place),
                    None => None,
                };
            }
            best = scan_row(columns, breaks, cell, row, best, Ghost(grid));
        }
        row += 1;
    }
    match best {
        Some(best) => Some(best.place),
        None => None,
    }
}

/// Keys are ordered as their heads are, where these differ.
proof fn lemma_heads_decide(left: Seq<i64>, right: Seq<i64>, count: int)
    requires
        0 <= count <= left.len(),
        count <= right.len(),
        key_before(left.take(count), right.take(count)),
    ensures
        key_before(left, right),
    decreases count,
{
    if count > 0 && left[0] == right[0] {
        assert(left.take(count).drop_first() =~= left.drop_first().take(count - 1));
        assert(right.take(count).drop_first() =~= right.drop_first().take(count - 1));
        lemma_heads_decide(left.drop_first(), right.drop_first(), count - 1);
    }
}

/// Whether a pair comes before a place in the order of the scan.
spec fn comes_before(l: int, r: int, row: int, column: int) -> bool {
    l < row || (l == row && r < column)
}

/// Whether `best` is the first least of the pairs before a place.
spec fn covers(grid: Grid, row: int, column: int, best: Option<(int, int)>) -> bool {
    match best {
        None => forall|l: int, r: int|
            0 <= l < grid.rows && 0 <= r < grid.columns && comes_before(l, r, row, column) ==> (
            #[trigger] (grid.key)(l, r)) is None,
        Some(best) => {
            &&& 0 <= best.0 < grid.rows
            &&& 0 <= best.1 < grid.columns
            &&& comes_before(best.0, best.1, row, column)
            &&& (grid.key)(best.0, best.1) is Some
            &&& forall|l: int, r: int|
                0 <= l < grid.rows && 0 <= r < grid.columns && comes_before(l, r, row, column) && (
                #[trigger] (grid.key)(l, r)) is Some ==> {
                    &&& !key_before((grid.key)(l, r)->0, (grid.key)(best.0, best.1)->0)
                    &&& comes_before(l, r, best.0, best.1) ==> key_before(
                        (grid.key)(best.0, best.1)->0,
                        (grid.key)(l, r)->0,
                    )
                }
        },
    }
}

/// A pair whose head is not before one that is past the best pair is worse than that.
proof fn lemma_past_is_worse(grid: Grid, best: (int, int), row: int, column: int, passed: Seq<i64>)
    requires
        grid.is_consistent(),
        grid.heads_ascend(),
        0 <= best.0 < grid.rows,
        0 <= best.1 < grid.columns,
        0 <= row < grid.rows,
        0 <= column < grid.columns,
        (grid.key)(best.0, best.1) is Some,
        (grid.key)(row, column) is Some,
        key_before((grid.head)(best.0, best.1), passed),
        !key_before((grid.head)(row, column), passed),
    ensures
        key_before((grid.key)(best.0, best.1)->0, (grid.key)(row, column)->0),
        !key_before((grid.key)(row, column)->0, (grid.key)(best.0, best.1)->0),
{
    let low = (grid.head)(best.0, best.1);
    let high = (grid.head)(row, column);
    lemma_key_total(high, passed);
    if high != passed {
        lemma_key_transitive(low, passed, high);
    }
    let one = (grid.key)(best.0, best.1)->0;
    let other = (grid.key)(row, column)->0;
    assert(low.len() == high.len());
    lemma_heads_decide(one, other, low.len() as int);
    lemma_key_total(one, other);
}

proof fn lemma_row(grid: Grid, row: int, column: int, best: Option<(int, int)>)
    requires
        grid.is_consistent(),
        grid.breaks ==> grid.heads_ascend(),
        0 <= row < grid.rows,
        0 <= column <= grid.columns,
        covers(grid, row, column, best),
    ensures
        covers(grid, row + 1, 0, grid.after_row(row, column, best)),
    decreases grid.columns - column,
{
    if column >= grid.columns {
    } else if !(grid.column_open)(column) {
        assert((grid.key)(row, column) is None);
        lemma_row(grid, row, column + 1, best);
    } else if grid.is_past(row, column, best) {
        let held = best->0;
        assert forall|l: int, r: int|
            0 <= l < grid.rows && 0 <= r < grid.columns && comes_before(l, r, row + 1, 0) && (
            #[trigger] (grid.key)(l, r)) is Some implies !key_before(
            (grid.key)(l, r)->0,
            (grid.key)(held.0, held.1)->0,
        ) && (comes_before(l, r, held.0, held.1) ==> key_before(
            (grid.key)(held.0, held.1)->0,
            (grid.key)(l, r)->0,
        )) by {
            if !comes_before(l, r, row, column) {
                assert(!key_before((grid.head)(row, r), (grid.head)(row, column)));
                lemma_past_is_worse(grid, held, l, r, (grid.head)(row, column));
            }
        }
    } else if grid.is_better(row, column, best) {
        let key = (grid.key)(row, column)->0;
        lemma_key_total(key, key);
        if let Some(held) = best {
            let old = (grid.key)(held.0, held.1)->0;
            assert forall|l: int, r: int|
                0 <= l < grid.rows && 0 <= r < grid.columns && comes_before(l, r, row, column) && (
                #[trigger] (grid.key)(l, r)) is Some implies key_before(key, (grid.key)(l, r)->0)
                && !key_before((grid.key)(l, r)->0, key) by {
                let other = (grid.key)(l, r)->0;
                lemma_key_total(other, old);
                if other != old {
                    lemma_key_transitive(key, old, other);
                }
                lemma_key_total(key, other);
            }
        }
        lemma_row(grid, row, column + 1, Some((row, column)));
    } else {
        if let (Some(held), Some(key)) = (best, (grid.key)(row, column)) {
            lemma_key_total(key, (grid.key)(held.0, held.1)->0);
        }
        lemma_row(grid, row, column + 1, best);
    }
}

proof fn lemma_rows(grid: Grid, row: int, best: Option<(int, int)>)
    requires
        grid.is_consistent(),
        grid.breaks ==> grid.heads_ascend(),
        0 <= row <= grid.rows,
        covers(grid, row, 0, best),
    ensures
        covers(grid, grid.rows as int, 0, grid.after_rows(row, best)),
    decreases grid.rows - row,
{
    if row >= grid.rows {
    } else if !(grid.row_open)(row) {
        assert forall|r: int| 0 <= r < grid.columns implies (#[trigger] (grid.key)(row, r)) is None by {
        }
        lemma_rows(grid, row + 1, best);
    } else if grid.columns > 0 && grid.is_past(row, 0, best) {
        let held = best->0;
        assert forall|l: int, r: int|
            0 <= l < grid.rows && 0 <= r < grid.columns && (
            #[trigger] (grid.key)(l, r)) is Some implies !key_before(
            (grid.key)(l, r)->0,
            (grid.key)(held.0, held.1)->0,
        ) && (comes_before(l, r, held.0, held.1) ==> key_before(
            (grid.key)(held.0, held.1)->0,
            (grid.key)(l, r)->0,
        )) by {
            if !comes_before(l, r, row, 0) {
                let first = (grid.head)(row, 0);
                let start = (grid.head)(l, 0);
                let head = (grid.head)(l, r);
                assert(!key_before(start, first));
                assert(!key_before(head, start));
                lemma_key_total(head, first);
                lemma_key_total(head, start);
                lemma_key_total(start, first);
                if key_before(head, first) {
                    if start != first {
                        lemma_key_transitive(head, first, start);
                    }
                }
                lemma_past_is_worse(grid, held, l, r, first);
            }
        }
    } else {
        lemma_row(grid, row, 0, best);
        lemma_rows(grid, row + 1, grid.after_row(row, 0, best));
    }
}

/// Breaking off loses nothing where heads ascend: the scan then finds the first least of
/// all pairs that have a key, and a scan that does not break off always does.
pub proof fn lemma_scan_finds_least(grid: Grid)
    requires
        grid.is_consistent(),
        grid.breaks ==> grid.heads_ascend(),
    ensures
        match grid.found() {
            None => forall|l: int, r: int|
                0 <= l < grid.rows && 0 <= r < grid.columns ==> (#[trigger] (grid.key)(l, r)) is None,
            Some((left, right)) => is_least_pair(grid.key, grid.rows, grid.columns, left, right),
        },
{
    lemma_rows(grid, 0, None);
}

} // verus!
