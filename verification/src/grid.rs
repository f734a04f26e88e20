//! Views of the cell grids of the screen as sequences of cell values.

use vstd::prelude::*;

use crate::anim::{CellView, CharacterCell};

verus! {

pub open spec fn opt_cell_view(c: Option<CharacterCell>) -> Option<CellView> {
    match c {
        Some(x) => Some(x@),
        None => None,
    }
}

pub open spec fn row_view(r: Seq<Option<CharacterCell>>) -> Seq<Option<CellView>> {
    Seq::new(r.len(), |j: int| opt_cell_view(r[j]))
}

pub open spec fn grid_view(cells: Seq<Vec<Option<CharacterCell>>>) -> Seq<Seq<Option<CellView>>> {
    Seq::new(cells.len(), |i: int| row_view(cells[i]@))
}

pub broadcast proof fn lemma_row_view(r: Seq<Option<CharacterCell>>)
    ensures
        (#[trigger] row_view(r)).len() == r.len(),
        forall|j: int| 0 <= j < r.len() ==> #[trigger] row_view(r)[j] == opt_cell_view(r[j]),
{
}

pub broadcast proof fn lemma_grid_view(cells: Seq<Vec<Option<CharacterCell>>>)
    ensures
        (#[trigger] grid_view(cells)).len() == cells.len(),
        forall|i: int|
            0 <= i < cells.len() ==> #[trigger] grid_view(cells)[i] == row_view(cells[i]@),
{
}

/// Replacing one row of the cells replaces the matching row of the view.
pub proof fn lemma_grid_update(cells: Seq<Vec<Option<CharacterCell>>>, r: int, row: Vec<Option<CharacterCell>>)
    requires
        0 <= r < cells.len(),
    ensures
        grid_view(cells.update(r, row)) == grid_view(cells).update(r, row_view(row@)),
{
    assert(grid_view(cells.update(r, row)) =~= grid_view(cells).update(r, row_view(row@)));
}

/// The row emptied from column `c` on.
pub fn row_clear_from(row: &mut Vec<Option<CharacterCell>>, c: usize)
    ensures
        final(row)@.len() == old(row)@.len(),
        row_view(final(row)@) == Seq::new(
            old(row)@.len(),
            |j: int| if j < c { row_view(old(row)@)[j] } else { None },
        ),
{
    broadcast use group_grid_views;

    let ghost old_view = row_view(row@);
    let mut j: usize = c;
    while j < row.len()
        invariant
            c <= j,
            row@.len() == old(row)@.len(),
            old_view == row_view(old(row)@),
            forall|k: int|
                0 <= k < row@.len() ==> #[trigger] row_view(row@)[k] == (if c <= k < j {
                    None
                } else {
                    old_view[k]
                }),
        decreases row.len() - j,
    {
        let ghost before = row@;
        row.set(j, None);
        assert forall|k: int| 0 <= k < row@.len() implies #[trigger] row_view(row@)[k] == (if c
            <= k < j + 1 {
            None
        } else {
            old_view[k]
        }) by {
            if k != j {
                assert(row@[k] == before[k]);
                assert(row_view(before)[k] == opt_cell_view(before[k]));
            }
        }
        j = j + 1;
    }
    assert(row_view(row@) =~= Seq::new(
        old(row)@.len(),
        |j: int| if j < c { row_view(old(row)@)[j] } else { None },
    ));
}

/// Cells `c..c + n` of the row emptied.
pub fn row_erase(row: &mut Vec<Option<CharacterCell>>, c: usize, n: usize)
    requires
        c + n <= old(row)@.len(),
    ensures
        final(row)@.len() == old(row)@.len(),
        row_view(final(row)@) == Seq::new(
            old(row)@.len(),
            |j: int| if c <= j < c + n { None } else { row_view(old(row)@)[j] },
        ),
{
    broadcast use group_grid_views;

    let ghost old_view = row_view(row@);
    let len = row.len();
    let end = c + n;
    let mut j: usize = c;
    while j < end
        invariant
            end == c + n,
            c <= j <= c + n,
            c + n <= row@.len(),
            row@.len() == old(row)@.len(),
            old_view == row_view(old(row)@),
            forall|k: int|
                0 <= k < row@.len() ==> #[trigger] row_view(row@)[k] == (if c <= k < j {
                    None
                } else {
                    old_view[k]
                }),
        decreases end - j,
    {
        let ghost before = row@;
        row.set(j, None);
        assert forall|k: int| 0 <= k < row@.len() implies #[trigger] row_view(row@)[k] == (if c
            <= k < j + 1 {
            None
        } else {
            old_view[k]
        }) by {
            if k != j {
                assert(row@[k] == before[k]);
                assert(row_view(before)[k] == opt_cell_view(before[k]));
            }
        }
        j = j + 1;
    }
    assert(row_view(row@) =~= Seq::new(
        old(row)@.len(),
        |j: int| if c <= j < c + n { None } else { row_view(old(row)@)[j] },
    ));
}

/// `n` empty cells inserted at column `c`; the last `n` cells drop off.
pub fn row_insert_blanks(row: &mut Vec<Option<CharacterCell>>, c: usize, n: usize)
    requires
        c + n <= old(row)@.len(),
    ensures
        final(row)@.len() == old(row)@.len(),
        row_view(final(row)@) == Seq::new(
            old(row)@.len(),
            |j: int|
                if j < c {
                    row_view(old(row)@)[j]
                } else if j < c + n {
                    None
                } else {
                    row_view(old(row)@)[j - n]
                },
        ),
{
    broadcast use group_grid_views;

    let ghost old_view = row_view(row@);
    let ghost len = row@.len();
    let mut k: usize = 0;
    while k < n
        invariant
            k <= n,
            c + n <= len,
            row@.len() == len,
            len == old(row)@.len(),
            old_view == row_view(old(row)@),
            forall|j: int|
                0 <= j < len ==> #[trigger] row_view(row@)[j] == (if j < c {
                    old_view[j]
                } else if j < c + k {
                    None
                } else {
                    old_view[j - k]
                }),
        decreases n - k,
    {
        let ghost before = row@;
        row.pop();
        row.insert(c, None);
        assert forall|j: int| 0 <= j < len implies #[trigger] row_view(row@)[j] == (if j < c {
            old_view[j]
        } else if j < c + k + 1 {
            None
        } else {
            old_view[j - k - 1]
        }) by {
            if j < c {
                assert(row@[j] == before[j]);
                assert(row_view(before)[j] == opt_cell_view(before[j]));
            } else if j > c {
                assert(row@[j] == before[j - 1]);
                assert(row_view(before)[j - 1] == opt_cell_view(before[j - 1]));
            }
        }
        k = k + 1;
    }
    assert(row_view(row@) =~= Seq::new(
        old(row)@.len(),
        |j: int|
            if j < c {
                row_view(old(row)@)[j]
            } else if j < c + n {
                None
            } else {
                row_view(old(row)@)[j - n]
            },
    ));
}

/// `n` cells deleted at column `c`; the rest moves left and empty cells fill
/// the end.
pub fn row_delete(row: &mut Vec<Option<CharacterCell>>, c: usize, n: usize)
    requires
        c + n <= old(row)@.len(),
    ensures
        final(row)@.len() == old(row)@.len(),
        row_view(final(row)@) == Seq::new(
            old(row)@.len(),
            |j: int|
                if j < c {
                    row_view(old(row)@)[j]
                } else if j + n < old(row)@.len() {
                    row_view(old(row)@)[j + n]
                } else {
                    None
                },
        ),
{
    broadcast use group_grid_views;

    let ghost old_view = row_view(row@);
    let ghost len = row@.len();
    let mut k: usize = 0;
    while k < n
        invariant
            k <= n,
            c + n <= len,
            row@.len() == len,
            len == old(row)@.len(),
            old_view == row_view(old(row)@),
            forall|j: int|
                0 <= j < len ==> #[trigger] row_view(row@)[j] == (if j < c {
                    old_view[j]
                } else if j + k < len {
                    old_view[j + k]
                } else {
                    None
                }),
        decreases n - k,
    {
        let ghost before = row@;
        row.remove(c);
        row.push(None);
        assert forall|j: int| 0 <= j < len implies #[trigger] row_view(row@)[j] == (if j < c {
            old_view[j]
        } else if j + k + 1 < len {
            old_view[j + k + 1]
        } else {
            None
        }) by {
            if j < c {
                assert(row@[j] == before[j]);
                assert(row_view(before)[j] == opt_cell_view(before[j]));
            } else if j < len - 1 {
                assert(row@[j] == before[j + 1]);
                assert(row_view(before)[j + 1] == opt_cell_view(before[j + 1]));
            }
        }
        k = k + 1;
    }
    assert(row_view(row@) =~= Seq::new(
        old(row)@.len(),
        |j: int|
            if j < c {
                row_view(old(row)@)[j]
            } else if j + n < old(row)@.len() {
                row_view(old(row)@)[j + n]
            } else {
                None
            },
    ));
}

pub broadcast group group_grid_views {
    lemma_row_view,
    lemma_grid_view,
}

} // verus!
