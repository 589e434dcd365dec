//! Previews and samples taken from a sheet's rows.
use vstd::prelude::*;

use crate::domain::template::ExcelPreview;
use crate::error::AppError;
use crate::excel::reader::{row_visible, SheetData};
use crate::text::{chars_of, clone_strings, rows_view, string_of, strings_view, trim, trim_chars};

verus! {

/// Rows shown before the header row in a preview.
pub const PREVIEW_BEFORE: usize = 2;

/// Rows shown after the header row in a preview.
pub const PREVIEW_AFTER: usize = 7;

/// The rows at indexes `lo..hi` whose row numbers (index + 1) are shown, in order.
pub open spec fn shown_rows(
    rows: Seq<Seq<Seq<char>>>,
    hidden: Seq<usize>,
    lo: int,
    hi: int,
    visible_only: bool,
) -> Seq<Seq<Seq<char>>>
    decreases hi - lo,
{
    if hi <= lo {
        Seq::empty()
    } else {
        let prev = shown_rows(rows, hidden, lo, hi - 1, visible_only);
        if row_visible(hidden, hi, visible_only) {
            prev.push(rows[hi - 1])
        } else {
            prev
        }
    }
}

/// A range of rows shows at most as many rows as it spans.
pub proof fn lemma_shown_rows_len(
    rows: Seq<Seq<Seq<char>>>,
    hidden: Seq<usize>,
    lo: int,
    hi: int,
    visible_only: bool,
)
    requires
        lo <= hi,
    ensures
        shown_rows(rows, hidden, lo, hi, visible_only).len() <= hi - lo,
    decreases hi - lo,
{
    if lo < hi {
        lemma_shown_rows_len(rows, hidden, lo, hi - 1, visible_only);
    }
}

/// Copies the shown rows at indexes `lo..hi`.
fn copy_shown_rows(sheet: &SheetData, lo: usize, hi: usize, visible_only: bool) -> (r: Vec<
    Vec<String>,
>)
    requires
        lo <= hi <= sheet.rows@.len(),
    ensures
        rows_view(r@) == shown_rows(
            rows_view(sheet.rows@),
            sheet.hidden_rows@,
            lo as int,
            hi as int,
            visible_only,
        ),
{
    let ghost all = rows_view(sheet.rows@);
    let mut out: Vec<Vec<String>> = Vec::new();
    let mut i: usize = lo;
    while i < hi
        invariant
            lo <= i <= hi <= sheet.rows@.len(),
            all == rows_view(sheet.rows@),
            rows_view(out@) == shown_rows(all, sheet.hidden_rows@, lo as int, i as int, visible_only),
        decreases hi - i,
    {
        let ghost before = out@;
        if sheet.is_row_visible(i + 1, visible_only) {
            let row = clone_strings(&sheet.rows[i]);
            out.push(row);
            assert(rows_view(out@) =~= rows_view(before).push(all[i as int]));
        }
        i = i + 1;
    }
    out
}

/// The preview of a sheet around its header row: two rows before it to seven
/// after it, hidden rows left out when `visible_only`.
pub open spec fn preview_of(
    sheet_name: Seq<char>,
    rows: Seq<Seq<Seq<char>>>,
    hidden: Seq<usize>,
    header_row: usize,
    visible_only: bool,
) -> (Seq<char>, usize, usize, Seq<Seq<Seq<char>>>) {
    let header_idx = if header_row >= 1 {
        header_row - 1
    } else {
        0
    };
    let start = if header_idx >= 2 {
        header_idx - 2
    } else {
        0
    };
    let end = if header_idx + 8 < rows.len() {
        header_idx + 8
    } else {
        rows.len() as int
    };
    (sheet_name, header_row, (start + 1) as usize, shown_rows(rows, hidden, start, end, visible_only))
}

pub fn build_preview(sheet: &SheetData, header_row: usize, visible_only: bool) -> (r: ExcelPreview)
    requires
        header_row <= usize::MAX - 7,
    ensures
        (r@.sheet_name, r@.header_row, r@.start_row, r@.rows) == preview_of(
            sheet.name@,
            rows_view(sheet.rows@),
            sheet.hidden_rows@,
            header_row,
            visible_only,
        ),
        r.rows@.len() <= PREVIEW_BEFORE + PREVIEW_AFTER + 1,
{
    let header_idx = header_row.saturating_sub(1);
    let start_idx = header_idx.saturating_sub(PREVIEW_BEFORE);
    let end_idx = if header_idx + PREVIEW_AFTER + 1 < sheet.rows.len() {
        header_idx + PREVIEW_AFTER + 1
    } else {
        sheet.rows.len()
    };
    let rows = if start_idx < end_idx {
        proof {
            lemma_shown_rows_len(
                rows_view(sheet.rows@),
                sheet.hidden_rows@,
                start_idx as int,
                end_idx as int,
                visible_only,
            );
        }
        copy_shown_rows(sheet, start_idx, end_idx, visible_only)
    } else {
        Vec::new()
    };
    ExcelPreview {
        sheet_name: sheet.name.clone(),
        header_row,
        start_row: start_idx + 1,
        rows,
    }
}

/// The cells of the header row, unless that row is hidden (and hidden rows are
/// skipped) or beyond the sheet. Row 0 reads as row 1.
pub fn headers_at(sheet: &SheetData, header_row: usize, visible_only: bool) -> (r: Result<
    Vec<String>,
    AppError,
>)
    ensures
        match r {
            Ok(h) => row_visible(sheet.hidden_rows@, header_row as int, visible_only) && {
                let idx = if header_row >= 1 {
                    header_row - 1
                } else {
                    0
                };
                idx < sheet.rows@.len() && strings_view(h@) == rows_view(sheet.rows@)[idx]
            },
            Err(e) => e is InvalidHeaderRow && (!row_visible(
                sheet.hidden_rows@,
                header_row as int,
                visible_only,
            ) || (if header_row >= 1 {
                header_row - 1
            } else {
                0
            }) >= sheet.rows@.len()),
        },
{
    if !sheet.is_row_visible(header_row, visible_only) {
        return Err(AppError::InvalidHeaderRow);
    }
    let idx = header_row.saturating_sub(1);
    if idx < sheet.rows.len() {
        Ok(clone_strings(&sheet.rows[idx]))
    } else {
        Err(AppError::InvalidHeaderRow)
    }
}

/// The trimmed non-blank cells of column `col` in the shown rows at indexes `lo..hi`.
pub open spec fn column_samples(
    rows: Seq<Seq<Seq<char>>>,
    hidden: Seq<usize>,
    lo: int,
    hi: int,
    col: int,
    visible_only: bool,
) -> Seq<Seq<char>>
    decreases hi - lo,
{
    if hi <= lo {
        Seq::empty()
    } else {
        let prev = column_samples(rows, hidden, lo, hi - 1, col, visible_only);
        let row = rows[hi - 1];
        if row_visible(hidden, hi, visible_only) && col < row.len() && trim(row[col]).len() > 0 {
            prev.push(trim(row[col]))
        } else {
            prev
        }
    }
}

proof fn lemma_column_samples_prefix(
    rows: Seq<Seq<Seq<char>>>,
    hidden: Seq<usize>,
    lo: int,
    mid: int,
    hi: int,
    col: int,
    visible_only: bool,
)
    requires
        lo <= mid <= hi,
    ensures
        column_samples(rows, hidden, lo, mid, col, visible_only).len() <= column_samples(
            rows,
            hidden,
            lo,
            hi,
            col,
            visible_only,
        ).len(),
        column_samples(rows, hidden, lo, mid, col, visible_only) =~= column_samples(
            rows,
            hidden,
            lo,
            hi,
            col,
            visible_only,
        ).take(column_samples(rows, hidden, lo, mid, col, visible_only).len() as int),
    decreases hi - mid,
{
    if mid < hi {
        lemma_column_samples_prefix(rows, hidden, lo, mid, hi - 1, col, visible_only);
    }
}

/// Up to `limit` sample values of a column: the trimmed non-blank cells of the
/// shown rows from `data_start_row` on.
pub fn sample_values(
    sheet: &SheetData,
    data_start_row: usize,
    column: usize,
    limit: usize,
    visible_only: bool,
) -> (r: Vec<String>)
    ensures
        ({
            let start = if data_start_row >= 1 {
                data_start_row - 1
            } else {
                0
            };
            let all = column_samples(
                rows_view(sheet.rows@),
                sheet.hidden_rows@,
                start,
                sheet.rows@.len() as int,
                column as int,
                visible_only,
            );
            strings_view(r@) == if all.len() <= limit {
                all
            } else {
                all.take(limit as int)
            }
        }),
{
    let ghost rv = rows_view(sheet.rows@);
    let start = data_start_row.saturating_sub(1);
    let n = sheet.rows.len();
    let mut out: Vec<String> = Vec::new();
    if start >= n || limit == 0 {
        proof {
            if start >= n {
                assert(column_samples(rv, sheet.hidden_rows@, start as int, n as int, column as int, visible_only)
                    =~= Seq::empty());
            }
        }
        return out;
    }
    let mut i: usize = start;
    while i < n
        invariant
            start <= i <= n == sheet.rows@.len(),
            start == (if data_start_row >= 1 {
                data_start_row - 1
            } else {
                0
            }),
            rv == rows_view(sheet.rows@),
            limit > 0,
            out@.len() < limit,
            strings_view(out@) == column_samples(rv, sheet.hidden_rows@, start as int, i as int, column as int, visible_only),
        decreases n - i,
    {
        let row = &sheet.rows[i];
        let ghost before = out@;
        assert(rv[i as int] == strings_view(row@));
        if sheet.is_row_visible(i + 1, visible_only) && column < row.len() {
            let cell = trim_chars(chars_of(row[column].as_str()).as_slice());
            if cell.len() > 0 {
                out.push(string_of(cell.as_slice()));
                assert(strings_view(out@) =~= strings_view(before).push(cell@));
                if out.len() == limit {
                    proof {
                        lemma_column_samples_prefix(rv, sheet.hidden_rows@, start as int, i + 1, n as int, column as int, visible_only);
                        let all = column_samples(rv, sheet.hidden_rows@, start as int, n as int, column as int, visible_only);
                        assert(strings_view(out@) =~= all.take(limit as int));
                        if all.len() <= limit {
                            assert(all.take(limit as int) =~= all);
                        }
                    }
                    return out;
                }
            }
        }
        i = i + 1;
    }
    out
}

/// The shown rows from `data_start_row` on.
pub fn visible_data_rows(sheet: &SheetData, data_start_row: usize, visible_only: bool) -> (r: Vec<
    Vec<String>,
>)
    ensures
        rows_view(r@) == shown_rows(
            rows_view(sheet.rows@),
            sheet.hidden_rows@,
            if data_start_row >= 1 {
                data_start_row - 1
            } else {
                0
            },
            sheet.rows@.len() as int,
            visible_only,
        ),
{
    let start = data_start_row.saturating_sub(1);
    if start < sheet.rows.len() {
        copy_shown_rows(sheet, start, sheet.rows.len(), visible_only)
    } else {
        assert(shown_rows(rows_view(sheet.rows@), sheet.hidden_rows@, start as int, sheet.rows@.len() as int, visible_only) =~= Seq::empty());
        Vec::new()
    }
}

} // verus!
