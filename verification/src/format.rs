//! Column-aligned formatting of the emitted table.
//!
//! Each column is padded to the widest cell it holds anywhere in the table.
//! Widths are measured in bytes, while padding appends spaces up to the
//! width in characters; for ASCII content the two coincide.  The last cell
//! of each row is left unpadded.

use vstd::math::max;
use vstd::prelude::*;
use vstd::string::{StrSliceExecFns, StringExecFns};

verus! {

/// The byte length of a string, as `str::len` reports it.
pub open spec fn byte_len(s: Seq<char>) -> int {
    (vstd::utf8::encode_utf8(s).len() as usize) as int
}

/// The widest cell of column `j` over a table, in bytes; 0 where no row
/// reaches the column.
pub open spec fn col_width(rows: Seq<Seq<Seq<char>>>, j: int) -> int
    decreases rows.len(),
{
    if rows.len() == 0 {
        0
    } else {
        max(
            col_width(rows.drop_last(), j),
            if j < rows.last().len() {
                byte_len(rows.last()[j])
            } else {
                0
            },
        )
    }
}

/// The number of columns of the widest row.
pub open spec fn max_cols(rows: Seq<Seq<Seq<char>>>) -> int
    decreases rows.len(),
{
    if rows.len() == 0 {
        0
    } else {
        max(max_cols(rows.drop_last()), rows.last().len() as int)
    }
}

/// `n` spaces (none for a non-positive count).
pub open spec fn spaces(n: int) -> Seq<char> {
    Seq::new(
        if n >= 0 {
            n as nat
        } else {
            0
        },
        |k: int| ' ',
    )
}

/// A cell padded with spaces to `w` characters, followed by the one-space
/// separator.
pub open spec fn padded_cell(cell: Seq<char>, w: int) -> Seq<char> {
    cell + spaces(w - cell.len()) + seq![' ']
}

/// The first `j` cells of a row rendered: every cell but the row's last is
/// padded to its column's width.
pub open spec fn fmt_row(row: Seq<Seq<char>>, widths: Seq<int>, j: int) -> Seq<char>
    decreases j,
{
    if j <= 0 {
        Seq::empty()
    } else {
        fmt_row(row, widths, j - 1) + (if j == row.len() {
            row[j - 1]
        } else {
            padded_cell(row[j - 1], widths[j - 1])
        })
    }
}

/// All column widths of a table.
pub open spec fn all_widths(rows: Seq<Seq<Seq<char>>>) -> Seq<int> {
    Seq::new(
        if max_cols(rows) >= 0 {
            max_cols(rows) as nat
        } else {
            0
        },
        |j: int| col_width(rows, j),
    )
}

/// The rendered table: one line per row, cells aligned by column.
pub open spec fn format_columns_spec(rows: Seq<Seq<Seq<char>>>) -> Seq<Seq<char>> {
    Seq::new(rows.len(), |i: int| fmt_row(rows[i], all_widths(rows), rows[i].len() as int))
}

proof fn lemma_max_cols_nonneg(rows: Seq<Seq<Seq<char>>>)
    ensures
        max_cols(rows) >= 0,
    decreases rows.len(),
{
    if rows.len() > 0 {
        lemma_max_cols_nonneg(rows.drop_last());
    }
}

/// A column no row reaches has width 0.
proof fn lemma_col_width_beyond(rows: Seq<Seq<Seq<char>>>, j: int)
    requires
        j >= max_cols(rows),
    ensures
        col_width(rows, j) == 0,
    decreases rows.len(),
{
    if rows.len() > 0 {
        lemma_col_width_beyond(rows.drop_last(), j);
    }
}

/// No row is wider than the widest.
proof fn lemma_max_cols_bound(rows: Seq<Seq<Seq<char>>>, i: int)
    requires
        0 <= i < rows.len(),
    ensures
        rows[i].len() <= max_cols(rows),
    decreases rows.len(),
{
    if i < rows.len() - 1 {
        lemma_max_cols_bound(rows.drop_last(), i);
        assert(rows.drop_last()[i] == rows[i]);
    }
}

proof fn lemma_col_width_nonneg(rows: Seq<Seq<Seq<char>>>, j: int)
    ensures
        col_width(rows, j) >= 0,
    decreases rows.len(),
{
    if rows.len() > 0 {
        lemma_col_width_nonneg(rows.drop_last(), j);
    }
}

/// Append `k` spaces to a string.
fn push_spaces(s: &mut String, k: usize)
    ensures
        final(s)@ == old(s)@ + spaces(k as int),
{
    let mut t: usize = 0;
    proof {
        assert(old(s)@ + spaces(0) =~= old(s)@);
    }
    while t < k
        invariant
            t <= k,
            s@ == old(s)@ + spaces(t as int),
        decreases k - t,
    {
        s.append(" ");
        proof {
            reveal_strlit(" ");
            assert(spaces(t as int).push(' ') =~= spaces(t + 1));
            assert(old(s)@ + spaces(t as int) + " "@ =~= old(s)@ + spaces(t + 1));
        }
        t += 1;
    }
}

/// Render the emitted table with column alignment: each column as wide as
/// its widest cell anywhere in the table, one space between columns, and the
/// last cell of each row unpadded.
pub fn format_columns(output: &[Vec<String>]) -> (r: Vec<String>)
    ensures
        r.deep_view() == format_columns_spec(output.deep_view()),
{
    let ghost rows_v = output.deep_view();
    if output.len() == 0 {
        let r: Vec<String> = Vec::new();
        proof {
            assert(r.deep_view() =~= format_columns_spec(rows_v));
        }
        return r;
    }
    // measure every column
    let mut col_widths: Vec<usize> = Vec::new();
    let n = output.len();
    proof {
        assert(rows_v.take(0) =~= Seq::<Seq<Seq<char>>>::empty());
    }
    for i in 0..n
        invariant
            n == output@.len(),
            rows_v == output.deep_view(),
            rows_v.len() == n,
            col_widths@.len() == max_cols(rows_v.take(i as int)),
            forall|t: int|
                0 <= t < col_widths@.len() ==> col_widths@[t] == col_width(
                    rows_v.take(i as int),
                    t,
                ),
    {
        let row = &output[i];
        let m = row.len();
        let ghost prev_rows = rows_v.take(i as int);
        proof {
            assert(rows_v.take(i + 1).drop_last() =~= prev_rows);
            assert(rows_v.take(i + 1).last() == rows_v[i as int]);
            assert(rows_v[i as int] == output@[i as int].deep_view());
            assert(rows_v[i as int].len() == m);
            lemma_max_cols_nonneg(prev_rows);
        }
        for j in 0..m
            invariant
                n == output@.len(),
                rows_v == output.deep_view(),
                0 <= i < n,
                m == row@.len(),
                row == output@[i as int],
                rows_v[i as int] == output@[i as int].deep_view(),
                rows_v[i as int].len() == m,
                prev_rows == rows_v.take(i as int),
                col_widths@.len() == max(max_cols(prev_rows), j as int),
                forall|t: int|
                    0 <= t < col_widths@.len() ==> col_widths@[t] == (if t < j {
                        max(col_width(prev_rows, t), byte_len(rows_v[i as int][t]))
                    } else {
                        col_width(prev_rows, t)
                    }),
        {
            proof {
                assert(rows_v[i as int][j as int] == row@[j as int]@);
                lemma_col_width_nonneg(prev_rows, j as int);
            }
            let cell_len = row[j].as_str().len();
            if j >= col_widths.len() {
                proof {
                    lemma_col_width_beyond(prev_rows, j as int);
                }
                col_widths.push(0);
            }
            let cur = col_widths[j];
            if cell_len > cur {
                col_widths[j] = cell_len;
            }
        }
        proof {
            assert(max_cols(rows_v.take(i + 1)) == max(max_cols(prev_rows), m as int));
            assert forall|t: int| 0 <= t < col_widths@.len() implies col_widths@[t] == col_width(
                rows_v.take(i + 1),
                t,
            ) by {
                if t < m {
                    assert(col_width(rows_v.take(i + 1), t) == max(
                        col_width(prev_rows, t),
                        byte_len(rows_v[i as int][t]),
                    ));
                } else {
                    assert(col_width(rows_v.take(i + 1), t) == max(col_width(prev_rows, t), 0));
                    lemma_col_width_nonneg(prev_rows, t);
                }
            }
        }
    }
    proof {
        assert(rows_v.take(n as int) =~= rows_v);
    }
    // render every row
    let ghost widths_v = all_widths(rows_v);
    proof {
        lemma_max_cols_nonneg(rows_v);
        assert(widths_v.len() == col_widths@.len());
        assert forall|t: int| 0 <= t < widths_v.len() implies widths_v[t] == col_widths@[t] by {
            assert(widths_v[t] == col_width(rows_v, t));
        }
    }
    let mut result: Vec<String> = Vec::new();
    for i in 0..n
        invariant
            n == output@.len(),
            rows_v == output.deep_view(),
            rows_v.len() == n,
            widths_v == all_widths(rows_v),
            widths_v.len() == col_widths@.len(),
            forall|t: int| 0 <= t < widths_v.len() ==> widths_v[t] == col_widths@[t],
            result@.len() == i,
            forall|t: int|
                0 <= t < i ==> result@[t]@ == fmt_row(rows_v[t], widths_v, rows_v[t].len() as int),
    {
        let row = &output[i];
        let m = row.len();
        proof {
            assert(rows_v[i as int] == output@[i as int].deep_view());
            assert(rows_v[i as int].len() == m);
            lemma_max_cols_bound(rows_v, i as int);
        }
        let mut line = String::new();
        proof {
            assert(line@ =~= fmt_row(rows_v[i as int], widths_v, 0));
        }
        for j in 0..m
            invariant
                n == output@.len(),
                rows_v == output.deep_view(),
                0 <= i < n,
                m == row@.len(),
                row == output@[i as int],
                rows_v[i as int] == output@[i as int].deep_view(),
                rows_v[i as int].len() == m,
                widths_v == all_widths(rows_v),
                widths_v.len() == col_widths@.len(),
                forall|t: int| 0 <= t < widths_v.len() ==> widths_v[t] == col_widths@[t],
                m <= widths_v.len(),
                line@ == fmt_row(rows_v[i as int], widths_v, j as int),
        {
            proof {
                assert(rows_v[i as int][j as int] == row@[j as int]@);
            }
            let ghost prev_line = line@;
            if j == m - 1 {
                line.append(row[j].as_str());
                proof {
                    assert(line@ =~= fmt_row(rows_v[i as int], widths_v, j + 1));
                }
            } else {
                let cell_chars = row[j].as_str().unicode_len();
                let w = col_widths[j];
                line.append(row[j].as_str());
                if w > cell_chars {
                    push_spaces(&mut line, w - cell_chars);
                } else {
                    proof {
                        assert(spaces(w as int - cell_chars as int) =~= Seq::<char>::empty());
                    }
                }
                line.append(" ");
                proof {
                    reveal_strlit(" ");
                    assert(" "@ =~= seq![' ']);
                    assert(line@ =~= prev_line + padded_cell(
                        rows_v[i as int][j as int],
                        widths_v[j as int],
                    ));
                    assert(line@ =~= fmt_row(rows_v[i as int], widths_v, j + 1));
                }
            }
        }
        result.push(line);
        proof {
            assert(rows_v[i as int].len() as int == m as int);
        }
    }
    proof {
        assert(result.deep_view() =~= format_columns_spec(rows_v));
    }
    result
}

} // verus!
