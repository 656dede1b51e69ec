//! Fixed-width table layout: column widths and padded lines.
use vstd::prelude::*;

use crate::text::{push_spaces, spaces};

verus! {

/// Number of columns that a table has.
pub const COLUMN_COUNT: usize = 4;

/// Width of a cell: its number of Unicode scalar values.
pub fn cell_width(s: &str) -> (r: usize)
    ensures
        r == s@.len(),
{
    s.unicode_len()
}

/// The texts of a row of cells.
pub open spec fn texts(cells: Seq<String>) -> Seq<Seq<char>> {
    cells.map_values(|s: String| s@)
}

/// The texts of the cells of each row.
pub open spec fn grid(rows: Seq<Vec<String>>) -> Seq<Seq<Seq<char>>> {
    rows.map_values(|row: Vec<String>| texts(row@))
}

/// Width of cell `i` of a row; zero where the row has no such cell.
pub open spec fn cell_len(cells: Seq<Seq<char>>, i: int) -> nat {
    if 0 <= i < cells.len() {
        cells[i].len()
    } else {
        0
    }
}

/// The larger of two widths.
pub open spec fn wider(a: nat, b: nat) -> nat {
    if a >= b {
        a
    } else {
        b
    }
}

/// Widest cell `i` among `rows`, or zero.
pub open spec fn rows_width(rows: Seq<Seq<Seq<char>>>, i: int) -> nat
    decreases rows.len(),
{
    if rows.len() == 0 {
        0
    } else {
        wider(rows_width(rows.drop_last(), i), cell_len(rows.last(), i))
    }
}

/// Width of column `i`: its widest cell in the header, if any, and the rows.
pub open spec fn column_width(header: Option<Seq<Seq<char>>>, rows: Seq<Seq<Seq<char>>>, i: int) -> nat {
    let h = match header {
        Some(cells) => cell_len(cells, i),
        None => 0,
    };
    wider(h, rows_width(rows, i))
}

/// The header's texts, when there is a header.
pub open spec fn header_grid(header: Option<&[String]>) -> Option<Seq<Seq<char>>> {
    match header {
        Some(h) => Some(texts(h@)),
        None => None,
    }
}

/// Width of each of the table's columns: the widest cell of that column in
/// the header, when there is one, and in the rows; cells past the last
/// column are not measured.
pub fn column_widths(header: Option<&[String]>, rows: &[Vec<String>]) -> (r: Vec<usize>)
    ensures
        r@.len() == COLUMN_COUNT,
        forall|i: int|
            0 <= i < COLUMN_COUNT ==> r@[i] == column_width(header_grid(header), grid(rows@), i),
{
    let ghost hv = header_grid(header);
    let ghost g = grid(rows@);
    let mut widths: Vec<usize> = vec![0, 0, 0, 0];
    match header {
        Some(h) => {
            let n = if h.len() < COLUMN_COUNT {
                h.len()
            } else {
                COLUMN_COUNT
            };
            for i in 0..n
                invariant
                    n <= h@.len(),
                    n <= COLUMN_COUNT,
                    widths@.len() == COLUMN_COUNT,
                    forall|k: int| 0 <= k < i ==> widths@[k] == cell_len(texts(h@), k),
                    forall|k: int| i <= k < COLUMN_COUNT ==> widths@[k] == 0,
            {
                let w = cell_width(h[i].as_str());
                if w > widths[i] {
                    widths.set(i, w);
                }
            }
        },
        None => {},
    }
    assert forall|k: int| 0 <= k < COLUMN_COUNT implies widths@[k] == column_width(
        hv,
        g.take(0),
        k,
    ) by {
        assert(g.take(0).len() == 0);
    }
    let m = rows.len();
    for j in 0..m
        invariant
            m == rows@.len(),
            g == grid(rows@),
            widths@.len() == COLUMN_COUNT,
            forall|k: int|
                0 <= k < COLUMN_COUNT ==> widths@[k] == column_width(hv, g.take(j as int), k),
    {
        let row = &rows[j];
        let n = if row.len() < COLUMN_COUNT {
            row.len()
        } else {
            COLUMN_COUNT
        };
        let ghost before = widths@;
        let ghost cells = texts(row@);
        assert(g[j as int] == cells);
        for i in 0..n
            invariant
                n <= row@.len(),
                n <= COLUMN_COUNT,
                cells == texts(row@),
                before.len() == COLUMN_COUNT,
                widths@.len() == COLUMN_COUNT,
                forall|k: int|
                    0 <= k < i ==> widths@[k] == wider(before[k] as nat, cell_len(cells, k)),
                forall|k: int| i <= k < COLUMN_COUNT ==> widths@[k] == before[k],
        {
            let w = cell_width(row[i].as_str());
            if w > widths[i] {
                widths.set(i, w);
            }
        }
        assert forall|k: int| 0 <= k < COLUMN_COUNT implies widths@[k] == column_width(
            hv,
            g.take(j + 1),
            k,
        ) by {
            let t = g.take(j + 1);
            assert(t.drop_last() =~= g.take(j as int));
            assert(t.last() == cells);
            assert(rows_width(t, k) == wider(rows_width(g.take(j as int), k), cell_len(cells, k)));
            if k >= n {
                assert(cell_len(cells, k) == 0);
                assert(widths@[k] == before[k]);
            } else {
                assert(widths@[k] == wider(before[k] as nat, cell_len(cells, k)));
            }
            assert(before[k] == column_width(hv, g.take(j as int), k));
        }
    }
    assert(g.take(m as int) =~= g);
    widths
}

proof fn lemma_rows_width_bound(rows: Seq<Seq<Seq<char>>>, i: int, r: int)
    requires
        0 <= r < rows.len(),
    ensures
        cell_len(rows[r], i) <= rows_width(rows, i),
    decreases rows.len(),
{
    if r < rows.len() - 1 {
        assert(rows.drop_last()[r] == rows[r]);
        lemma_rows_width_bound(rows.drop_last(), i, r);
    }
}

/// No cell of the header or of a row is wider than the width of its column.
pub proof fn lemma_cells_fit(header: Option<Seq<Seq<char>>>, rows: Seq<Seq<Seq<char>>>, i: int)
    ensures
        header matches Some(h) ==> cell_len(h, i) <= column_width(header, rows, i),
        forall|r: int|
            0 <= r < rows.len() ==> #[trigger] cell_len(rows[r], i) <= column_width(
                header,
                rows,
                i,
            ),
{
    assert forall|r: int| 0 <= r < rows.len() implies #[trigger] cell_len(rows[r], i)
        <= column_width(header, rows, i) by {
        lemma_rows_width_bound(rows, i, r);
    }
}

proof fn lemma_rows_width_attained(rows: Seq<Seq<Seq<char>>>, i: int)
    ensures
        rows_width(rows, i) == 0 || exists|r: int|
            0 <= r < rows.len() && #[trigger] cell_len(rows[r], i) == rows_width(rows, i),
    decreases rows.len(),
{
    if rows.len() > 0 {
        lemma_rows_width_attained(rows.drop_last(), i);
        if rows_width(rows, i) != 0 && rows_width(rows, i) != cell_len(rows.last(), i) {
            let r = choose|r: int|
                0 <= r < rows.drop_last().len() && #[trigger] cell_len(rows.drop_last()[r], i)
                    == rows_width(rows.drop_last(), i);
            assert(rows[r] == rows.drop_last()[r]);
        }
    }
}

/// A column is exactly as wide as its widest cell: some cell of the header
/// or of a row has that width, unless the column is empty.
pub proof fn lemma_width_is_attained(header: Option<Seq<Seq<char>>>, rows: Seq<Seq<Seq<char>>>, i: int)
    ensures
        column_width(header, rows, i) == 0 || (header matches Some(h) && cell_len(h, i)
            == column_width(header, rows, i)) || exists|r: int|
            0 <= r < rows.len() && #[trigger] cell_len(rows[r], i) == column_width(header, rows, i),
{
    lemma_rows_width_attained(rows, i);
}

/// Where column `k` starts in a padded line.
pub open spec fn column_start(widths: Seq<nat>, k: int) -> int
    decreases k,
{
    if k <= 0 {
        0
    } else {
        column_start(widths, k - 1) + width_at(widths, k - 1) + 2
    }
}

proof fn lemma_column_start_grows(widths: Seq<nat>, a: int, b: int)
    requires
        0 <= a < b,
    ensures
        column_start(widths, a) >= 0,
        column_start(widths, a) + width_at(widths, a) + 2 <= column_start(widths, b),
    decreases b,
{
    if a < b - 1 {
        lemma_column_start_grows(widths, a, b - 1);
    } else if a > 0 {
        lemma_column_start_grows(widths, 0, a);
    }
}

/// When every cell fits its column, each cell of a padded line stands at its
/// column's start, and the line ends where the last column does: lines
/// formatted with the same widths are aligned column by column.
pub proof fn lemma_columns_align(cols: Seq<Seq<char>>, widths: Seq<nat>, k: int)
    requires
        0 <= k < cols.len(),
        forall|j: int| 0 <= j < cols.len() ==> #[trigger] cols[j].len() <= width_at(widths, j),
    ensures
        padded_line(cols, widths).len() == column_start(widths, cols.len() - 1) + width_at(
            widths,
            cols.len() - 1,
        ),
        padded_line(cols, widths).subrange(
            column_start(widths, k),
            column_start(widths, k) + cols[k].len(),
        ) == cols[k],
    decreases cols.len(),
{
    let n = cols.len() - 1;
    let prev = padded_line(cols.drop_last(), widths);
    let cell = padded_cell(cols[n], width_at(widths, n));
    assert(cols[n].len() <= width_at(widths, n));
    assert(cell.len() == width_at(widths, n));
    assert(cell.subrange(0, cols[n].len() as int) =~= cols[n]);
    if n > 0 {
        assert forall|j: int| 0 <= j < cols.drop_last().len() implies #[trigger] cols.drop_last()[j].len()
            <= width_at(widths, j) by {
            assert(cols.drop_last()[j] == cols[j]);
        }
        if k < n {
            lemma_columns_align(cols.drop_last(), widths, k);
            assert(cols.drop_last()[k] == cols[k]);
            assert(cols[k].len() <= width_at(widths, k));
            if k < n - 1 {
                lemma_column_start_grows(widths, k, n - 1);
            } else if k > 0 {
                lemma_column_start_grows(widths, 0, k);
            }
            assert(padded_line(cols, widths) == prev + column_gap() + cell);
            assert(padded_line(cols, widths).subrange(
                column_start(widths, k),
                column_start(widths, k) + cols[k].len(),
            ) =~= prev.subrange(column_start(widths, k), column_start(widths, k) + cols[k].len()));
        } else {
            lemma_columns_align(cols.drop_last(), widths, n - 1);
            assert(padded_line(cols, widths) == prev + column_gap() + cell);
            assert(padded_line(cols, widths).subrange(
                column_start(widths, k),
                column_start(widths, k) + cols[k].len(),
            ) =~= cell.subrange(0, cols[n].len() as int));
        }
    } else {
        assert(padded_line(cols.drop_last(), widths) =~= Seq::<char>::empty());
        assert(padded_line(cols, widths) =~= cell);
    }
}

/// Width that `widths` gives column `i`; zero past its end.
pub open spec fn width_at(widths: Seq<nat>, i: int) -> nat {
    if 0 <= i < widths.len() {
        widths[i]
    } else {
        0
    }
}

/// Machine widths as natural numbers.
pub open spec fn nat_widths(widths: Seq<usize>) -> Seq<nat> {
    widths.map_values(|w: usize| w as nat)
}

/// A cell followed by the spaces that bring it to `width`.
pub open spec fn padded_cell(cell: Seq<char>, width: nat) -> Seq<char> {
    if width > cell.len() {
        cell + spaces((width - cell.len()) as nat)
    } else {
        cell
    }
}

/// The separator between two columns.
pub open spec fn column_gap() -> Seq<char> {
    seq![' ', ' ']
}

/// The cells padded to their column widths, separated by two spaces.
pub open spec fn padded_line(cols: Seq<Seq<char>>, widths: Seq<nat>) -> Seq<char>
    decreases cols.len(),
{
    if cols.len() == 0 {
        seq![]
    } else {
        let k = cols.len() - 1;
        let gap = if k > 0 {
            column_gap()
        } else {
            seq![]
        };
        padded_line(cols.drop_last(), widths) + gap + padded_cell(cols[k], width_at(widths, k))
    }
}

/// One table line, without a newline: each cell padded with spaces to its
/// column's width (counted in Unicode scalar values) and the columns
/// separated by two spaces.
pub fn format_padded_line(cols: &[String], widths: &[usize]) -> (r: String)
    ensures
        r@ == padded_line(texts(cols@), nat_widths(widths@)),
{
    let ghost cv = texts(cols@);
    let mut out = String::new();
    let n = cols.len();
    for i in 0..n
        invariant
            n == cols@.len(),
            cv == texts(cols@),
            out@ == padded_line(cv.take(i as int), nat_widths(widths@)),
    {
        proof {
            assert(cv.take(i + 1).drop_last() =~= cv.take(i as int));
            assert(cv.take(i + 1)[i as int] == cols@[i as int]@);
        }
        if i > 0 {
            out.append("  ");
            proof {
                reveal_strlit("  ");
            }
        }
        let target: usize = if i < widths.len() {
            widths[i]
        } else {
            0
        };
        let cell = cols[i].as_str();
        out.append(cell);
        let w = cell_width(cell);
        let pad: usize = if target > w {
            target - w
        } else {
            0
        };
        push_spaces(&mut out, pad);
        proof {
            if target <= w {
                assert(spaces(0) =~= Seq::<char>::empty());
            }
        }
    }
    assert(cv.take(n as int) =~= cv);
    out
}

/// The header cells: `TYPE`, `STATUS`, `REASON`, `LAST_TRANSITION`.
pub open spec fn header_texts() -> Seq<Seq<char>> {
    seq!["TYPE"@, "STATUS"@, "REASON"@, "LAST_TRANSITION"@]
}

/// The header row as owned strings.
pub fn table_header_strings() -> (r: Vec<String>)
    ensures
        texts(r@) == header_texts(),
{
    let mut r: Vec<String> = Vec::new();
    r.push(String::from_str("TYPE"));
    r.push(String::from_str("STATUS"));
    r.push(String::from_str("REASON"));
    r.push(String::from_str("LAST_TRANSITION"));
    assert(texts(r@) =~= header_texts());
    r
}

} // verus!
