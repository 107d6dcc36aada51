//! Repair of grids in which merged regions kept their value in one cell only.

use vstd::prelude::*;
use crate::text::{blank, is_blank};

verus! {

/// How far past its source column a value spreads along a row.
pub const MAX_SPREAD: usize = 3;

/// A cell that holds nothing at all; a cell of spaces is not empty.
pub open spec fn empty_cell(s: Seq<char>) -> bool {
    s.len() == 0
}

pub open spec fn cells_view(row: Seq<String>) -> Seq<Seq<char>> {
    row.map_values(|s: String| s@)
}

pub open spec fn grid_view(rows: Seq<Vec<String>>) -> Seq<Seq<Seq<char>>> {
    rows.map_values(|r: Vec<String>| cells_view(r@))
}

/// Number of cells that are not empty.
pub open spec fn filled_count(row: Seq<Seq<char>>) -> nat
    decreases row.len(),
{
    if row.len() == 0 {
        0
    } else {
        filled_count(row.drop_last()) + if empty_cell(row.last()) {
            0nat
        } else {
            1nat
        }
    }
}

/// A row of more than five cells of which fewer than 30% are filled: a
/// section label rather than a merge pattern.
pub open spec fn is_category_row(row: Seq<Seq<char>>) -> bool {
    row.len() > 5 && filled_count(row) * 10 < row.len() * 3
}

/// The column of the last filled cell before column `i`, or -1.
pub open spec fn last_filled(row: Seq<Seq<char>>, i: int) -> int
    decreases i,
{
    if i <= 0 {
        -1
    } else if !empty_cell(row[i - 1]) {
        i - 1
    } else {
        last_filled(row, i - 1)
    }
}

/// The repaired value of column `i`.
pub open spec fn spread_cell(row: Seq<Seq<char>>, i: int) -> Seq<char> {
    if !empty_cell(row[i]) {
        row[i]
    } else {
        let j = last_filled(row, i);
        if j >= 0 && i - j <= MAX_SPREAD {
            row[j]
        } else {
            row[i]
        }
    }
}

/// A row with its horizontally merged regions filled in.
pub open spec fn reconstruct_row(row: Seq<Seq<char>>) -> Seq<Seq<char>> {
    if is_category_row(row) {
        row
    } else {
        Seq::new(row.len(), |i: int| spread_cell(row, i))
    }
}

pub proof fn lemma_last_filled(row: Seq<Seq<char>>, i: int)
    requires
        0 <= i <= row.len(),
    ensures
        last_filled(row, i) < i,
        last_filled(row, i) >= 0 ==> !empty_cell(row[last_filled(row, i)]),
        forall|k: int| last_filled(row, i) < k < i ==> empty_cell(#[trigger] row[k]),
    decreases i,
{
    if i > 0 && empty_cell(row[i - 1]) {
        lemma_last_filled(row, i - 1);
    }
}

/// Horizontal repair never carries a value more than three columns from the
/// cell that holds it, and leaves a category row as it is.
pub proof fn lemma_spread_is_bounded(row: Seq<Seq<char>>)
    ensures
        reconstruct_row(row).len() == row.len(),
        is_category_row(row) ==> reconstruct_row(row) == row,
        forall|i: int|
            0 <= i < row.len() ==> #[trigger] reconstruct_row(row)[i] == row[i] || exists|j: int|
                i - 3 <= j < i && !empty_cell(row[j]) && reconstruct_row(row)[i] == row[j],
{
    assert forall|i: int| 0 <= i < row.len() implies #[trigger] reconstruct_row(row)[i] == row[i]
        || exists|j: int| i - 3 <= j < i && !empty_cell(row[j]) && reconstruct_row(row)[i] == row[j] by {
        lemma_last_filled(row, i);
        if !is_category_row(row) && empty_cell(row[i]) {
            let j = last_filled(row, i);
            if j >= 0 && i - j <= MAX_SPREAD {
                assert(i - 3 <= j < i && !empty_cell(row[j]) && reconstruct_row(row)[i] == row[j]);
            }
        }
    }
}

pub proof fn lemma_filled_count_step(row: Seq<Seq<char>>, i: int)
    requires
        0 <= i < row.len(),
    ensures
        filled_count(row.subrange(0, i + 1)) == filled_count(row.subrange(0, i)) + if empty_cell(
            row[i],
        ) {
            0nat
        } else {
            1nat
        },
{
    assert(row.subrange(0, i + 1).drop_last() =~= row.subrange(0, i));
}

/// Number of filled cells in a row.
pub fn count_filled(row: &Vec<String>) -> (r: usize)
    ensures
        r == filled_count(cells_view(row@)),
{
    let ghost cv = cells_view(row@);
    let mut n: usize = 0;
    let mut i: usize = 0;
    while i < row.len()
        invariant
            i <= row@.len(),
            cv == cells_view(row@),
            n == filled_count(cv.subrange(0, i as int)),
            n <= i,
        decreases row.len() - i,
    {
        proof {
            lemma_filled_count_step(cv, i as int);
        }
        if row[i].unicode_len() != 0 {
            n = n + 1;
        }
        i = i + 1;
    }
    assert(cv.subrange(0, cv.len() as int) =~= cv);
    n
}

/// The row with each empty cell taking the value of the filled cell before it,
/// when that cell is at most three columns away; a category row comes back
/// unchanged, as do leading empty cells.
pub fn propagate_merged_cells_in_row(row: &Vec<String>) -> (r: Vec<String>)
    ensures
        cells_view(r@) == reconstruct_row(cells_view(row@)),
{
    let ghost cv = cells_view(row@);
    let n = row.len();
    let filled = count_filled(row);
    let mut out: Vec<String> = Vec::new();
    if n > 5 && (filled as u128) * 10 < (n as u128) * 3 {
        let mut i: usize = 0;
        while i < n
            invariant
                i <= n == row@.len(),
                cv == cells_view(row@),
                out@.len() == i,
                forall|k: int| 0 <= k < i ==> #[trigger] out@[k]@ == cv[k],
            decreases n - i,
        {
            out.push(row[i].clone());
            i = i + 1;
        }
        assert(cells_view(out@) =~= cv);
        return out;
    }
    let mut src: usize = 0;
    let mut has_src = false;
    let mut i: usize = 0;
    while i < n
        invariant
            i <= n == row@.len(),
            cv == cells_view(row@),
            !is_category_row(cv),
            has_src ==> src < i && src == last_filled(cv, i as int),
            !has_src ==> last_filled(cv, i as int) == -1 || i - last_filled(cv, i as int)
                > MAX_SPREAD,
            out@.len() == i,
            forall|k: int| 0 <= k < i ==> #[trigger] out@[k]@ == spread_cell(cv, k),
        decreases n - i,
    {
        let filled_here = row[i].unicode_len() != 0;
        if filled_here {
            out.push(row[i].clone());
            src = i;
            has_src = true;
        } else if has_src && i - src <= MAX_SPREAD {
            out.push(row[src].clone());
        } else {
            out.push(row[i].clone());
            has_src = false;
        }
        proof {
            lemma_last_filled(cv, i as int);
        }
        i = i + 1;
    }
    assert(cells_view(out@) =~= reconstruct_row(cv));
    out
}

/// The most recent filled value of column `c` in the rows before `r`.
pub open spec fn carry(rows: Seq<Seq<Seq<char>>>, r: int, c: int) -> Option<Seq<char>>
    decreases r,
{
    if r <= 0 {
        None
    } else if c < rows[r - 1].len() && !blank(rows[r - 1][c]) {
        Some(rows[r - 1][c])
    } else {
        carry(rows, r - 1, c)
    }
}

/// The repaired value of cell `(r, c)`: an empty cell of an eligible column
/// takes the column's most recent filled value.
pub open spec fn down_cell(rows: Seq<Seq<Seq<char>>>, eligible: Seq<bool>, r: int, c: int) -> Seq<
    char,
> {
    if 0 <= c < eligible.len() && eligible[c] && blank(rows[r][c]) && carry(rows, r, c) is Some {
        carry(rows, r, c)->0
    } else {
        rows[r][c]
    }
}

pub open spec fn fill_down(rows: Seq<Seq<Seq<char>>>, eligible: Seq<bool>) -> Seq<Seq<Seq<char>>> {
    Seq::new(rows.len(), |r: int| Seq::new(rows[r].len(), |c: int| down_cell(rows, eligible, r, c)))
}

/// The rows with each empty cell of an eligible column filled from the last
/// row above that had a value there; other columns are left as they are.
pub fn fill_merged_columns(rows: &Vec<Vec<String>>, eligible: &Vec<bool>) -> (r: Vec<Vec<String>>)
    ensures
        grid_view(r@) == fill_down(grid_view(rows@), eligible@),
{
    let ghost g = grid_view(rows@);
    let w = eligible.len();
    let mut carries: Vec<Option<String>> = Vec::new();
    let mut c: usize = 0;
    while c < w
        invariant
            c <= w == eligible@.len(),
            carries@.len() == c,
            forall|k: int| 0 <= k < c ==> carries@[k] is None,
        decreases w - c,
    {
        carries.push(None);
        c = c + 1;
    }
    let mut out: Vec<Vec<String>> = Vec::new();
    let mut r: usize = 0;
    while r < rows.len()
        invariant
            r <= rows@.len(),
            g == grid_view(rows@),
            w == eligible@.len(),
            carries@.len() == w,
            forall|k: int|
                0 <= k < w ==> match #[trigger] carries@[k] {
                    Some(s) => carry(g, r as int, k) == Some(s@),
                    None => carry(g, r as int, k) is None,
                },
            out@.len() == r,
            forall|k: int| 0 <= k < r ==> cells_view(#[trigger] out@[k]@) == fill_down(g, eligible@)[k],
        decreases rows.len() - r,
    {
        let row = &rows[r];
        assert(g[r as int] == cells_view(row@));
        let mut new_row: Vec<String> = Vec::new();
        let mut c: usize = 0;
        while c < row.len()
            invariant
                r < rows@.len(),
                row == rows@[r as int],
                g == grid_view(rows@),
                g[r as int] == cells_view(row@),
                c <= row@.len(),
                w == eligible@.len(),
                carries@.len() == w,
                forall|k: int|
                    0 <= k < w ==> match #[trigger] carries@[k] {
                        Some(s) => carry(g, r as int, k) == Some(s@),
                        None => carry(g, r as int, k) is None,
                    },
                new_row@.len() == c,
                forall|k: int| 0 <= k < c ==> #[trigger] new_row@[k]@ == down_cell(g, eligible@, r as int, k),
            decreases row.len() - c,
        {
            let cell = &row[c];
            let mut v = cell.clone();
            if c < w && eligible[c] && is_blank(cell.as_str()) {
                match &carries[c] {
                    Some(s) => {
                        v = s.clone();
                    },
                    None => {},
                }
            }
            new_row.push(v);
            c = c + 1;
        }
        let mut c: usize = 0;
        while c < w
            invariant
                r < rows@.len(),
                row == rows@[r as int],
                g == grid_view(rows@),
                g[r as int] == cells_view(row@),
                c <= w == eligible@.len(),
                carries@.len() == w,
                forall|k: int|
                    c <= k < w ==> match #[trigger] carries@[k] {
                        Some(s) => carry(g, r as int, k) == Some(s@),
                        None => carry(g, r as int, k) is None,
                    },
                forall|k: int|
                    0 <= k < c ==> match #[trigger] carries@[k] {
                        Some(s) => carry(g, r + 1, k) == Some(s@),
                        None => carry(g, r + 1, k) is None,
                    },
            decreases w - c,
        {
            if c < row.len() && !is_blank(row[c].as_str()) {
                carries.set(c, Some(row[c].clone()));
            }
            c = c + 1;
        }
        assert(cells_view(new_row@) =~= fill_down(g, eligible@)[r as int]);
        out.push(new_row);
        r = r + 1;
    }
    assert(grid_view(out@) =~= fill_down(g, eligible@));
    out
}

} // verus!
