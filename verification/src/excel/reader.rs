//! Sheet contents as the library sees them, and the checks on workbook paths.
//! Reading the workbook itself (calamine) happens at the application's edge.
use vstd::prelude::*;

use crate::error::AppError;
use crate::paths::{
    extension_of, last_component, names_file, names_no_file, path_extension, path_file_name,
};
use crate::seqs::{first_match, lemma_first_match_at, lemma_first_match_none};
use crate::text::{ascii_lower, chars_of, rows_view, strings_view, to_ascii_lower_chars, trim};

verus! {

/// The cells of one sheet, row by row (`rows[0]` is Excel row 1), and the
/// 1-based numbers of the rows the sheet marks hidden.
#[derive(Debug)]
pub struct SheetData {
    pub name: String,
    pub rows: Vec<Vec<String>>,
    pub hidden_rows: Vec<usize>,
}

/// Row `row` (1-based) is shown when hidden rows are not being skipped or the
/// sheet does not mark it hidden.
pub open spec fn row_visible(hidden: Seq<usize>, row: int, visible_only: bool) -> bool {
    !visible_only || !exists|k: int| 0 <= k < hidden.len() && hidden[k] == row
}

impl SheetData {
    pub fn is_row_visible(&self, row: usize, visible_only: bool) -> (r: bool)
        ensures
            r == row_visible(self.hidden_rows@, row as int, visible_only),
    {
        if !visible_only {
            return true;
        }
        let mut i: usize = 0;
        while i < self.hidden_rows.len()
            invariant
                i <= self.hidden_rows@.len(),
                visible_only,
                forall|k: int| 0 <= k < i ==> self.hidden_rows@[k] != row,
            decreases self.hidden_rows@.len() - i,
        {
            if self.hidden_rows[i] == row {
                assert(self.hidden_rows@[i as int] == row);
                return false;
            }
            i = i + 1;
        }
        true
    }
}

/// Some cell of `rows` holds more than white space.
pub open spec fn has_content(rows: Seq<Seq<Seq<char>>>) -> bool {
    exists|r: int, c: int|
        0 <= r < rows.len() && 0 <= c < rows[r].len() && trim(#[trigger] rows[r][c]).len() > 0
}

/// Position of the sheet opened by default among the first `n`: the first
/// whose rows hold content, else the first.
pub open spec fn default_sheet(previews: Seq<Seq<Seq<Seq<char>>>>, n: int) -> int {
    match first_match(previews.take(n), |p: Seq<Seq<Seq<char>>>| has_content(p)) {
        Some(k) => k,
        None => 0,
    }
}

/// The extensions the workbook reader accepts, compared without ASCII case.
pub open spec fn supported_extension(ext: Seq<char>) -> bool {
    let e = ext.map_values(|c: char| ascii_lower(c));
    e == "xlsx"@ || e == "xls"@ || e == "xlsm"@ || e == "xlsb"@ || e == "ods"@
}

/// The text of cell `c` of row `r` of a sheet whose used range starts at row
/// `start_row`, column `start_col`, and holds the rows `cells` (`width` columns
/// of each): the range's cell there, or empty text outside it.
pub open spec fn placed_cell(
    cells: Seq<Seq<Seq<char>>>,
    start_row: int,
    start_col: int,
    width: int,
    r: int,
    c: int,
) -> Seq<char> {
    if start_row <= r < start_row + cells.len() && start_col <= c < start_col + width && c
        - start_col < cells[r - start_row].len() {
        cells[r - start_row][c - start_col]
    } else {
        Seq::empty()
    }
}

/// How many rows a sheet read keeps: all rows up to the end of the used range,
/// or no more than `max_rows`.
pub open spec fn kept_height(start_row: int, height: int, max_rows: Option<usize>) -> int {
    match max_rows {
        Some(m) => if start_row + height <= m {
            start_row + height
        } else {
            m as int
        },
        None => start_row + height,
    }
}

impl SheetData {
    /// The rows of a sheet from its used range: rows and columns before the
    /// range are empty, every row is as wide as the range reaches (at least one
    /// cell), and no more than `max_rows` rows are kept.
    pub fn place_cells(
        start_row: usize,
        start_col: usize,
        width: usize,
        max_rows: Option<usize>,
        cells: &Vec<Vec<String>>,
    ) -> (r: Vec<Vec<String>>)
        requires
            start_row + cells@.len() <= usize::MAX,
            start_col + width <= usize::MAX,
        ensures
            r@.len() == kept_height(start_row as int, cells@.len() as int, max_rows),
            forall|i: int|
                0 <= i < r@.len() ==> (#[trigger] r@[i])@.len() == if start_col + width >= 1 {
                    start_col + width
                } else {
                    1
                },
            forall|i: int, c: int|
                0 <= i < r@.len() && 0 <= c < r@[i]@.len() ==> (#[trigger] rows_view(r@)[i][c])
                    == placed_cell(
                    rows_view(cells@),
                    start_row as int,
                    start_col as int,
                    width as int,
                    i,
                    c,
                ),
    {
        let ghost cv = rows_view(cells@);
        let abs_width = start_col + width;
        let row_width = if abs_width >= 1 {
            abs_width
        } else {
            1
        };
        let abs_height = match max_rows {
            Some(m) => if start_row + cells.len() <= m {
                start_row + cells.len()
            } else {
                m
            },
            None => start_row + cells.len(),
        };
        let mut rows: Vec<Vec<String>> = Vec::new();
        let mut i: usize = 0;
        while i < abs_height
            invariant
                i <= abs_height,
                abs_height == kept_height(start_row as int, cells@.len() as int, max_rows),
                abs_width == start_col + width,
                row_width == (if abs_width >= 1 {
                    abs_width
                } else {
                    1
                }),
                start_row + cells@.len() <= usize::MAX,
                cv == rows_view(cells@),
                rows@.len() == i,
                forall|q: int| 0 <= q < i ==> (#[trigger] rows@[q])@.len() == row_width,
                forall|q: int, c: int|
                    0 <= q < i && 0 <= c < row_width ==> (#[trigger] rows_view(rows@)[q][c])
                        == placed_cell(cv, start_row as int, start_col as int, width as int, q, c),
            decreases abs_height - i,
        {
            let mut row: Vec<String> = Vec::new();
            let mut c: usize = 0;
            while c < row_width
                invariant
                    c <= row_width,
                    i < abs_height,
                    abs_width == start_col + width,
                    start_row + cells@.len() <= usize::MAX,
                    cv == rows_view(cells@),
                    row@.len() == c,
                    forall|k: int|
                        0 <= k < c ==> (#[trigger] row@[k])@ == placed_cell(
                            cv,
                            start_row as int,
                            start_col as int,
                            width as int,
                            i as int,
                            k,
                        ),
                decreases row_width - c,
            {
                let inside = start_row <= i && i < start_row + cells.len() && start_col <= c && c
                    < abs_width && c - start_col < cells[i - start_row].len();
                if inside {
                    assert(cv[i - start_row] == strings_view(cells@[i - start_row]@));
                    row.push(cells[i - start_row][c - start_col].clone());
                } else {
                    row.push(String::new());
                }
                c = c + 1;
            }
            let ghost before = rows@;
            assert(forall|q: int, k: int|
                0 <= q < i && 0 <= k < row_width ==> (#[trigger] rows_view(before)[q][k])
                    == placed_cell(cv, start_row as int, start_col as int, width as int, q, k));
            rows.push(row);
            proof {
                assert forall|q: int, k: int|
                    0 <= q < i + 1 && 0 <= k < row_width implies (#[trigger] rows_view(rows@)[q][k])
                    == placed_cell(cv, start_row as int, start_col as int, width as int, q, k) by {
                    if q < i {
                        assert(rows@[q] == before[q]);
                        assert(rows_view(rows@)[q] == rows_view(before)[q]);
                        assert(rows_view(before)[q][k] == placed_cell(
                            cv,
                            start_row as int,
                            start_col as int,
                            width as int,
                            q,
                            k,
                        ));
                    } else {
                        assert(rows_view(rows@)[q] == strings_view(row@));
                        assert(strings_view(row@)[k] == row@[k]@);
                    }
                }
            }
            i = i + 1;
        }
        rows
    }
}

/// Reads Excel workbooks. Never send full sheets to the frontend.
pub struct ExcelReader;

impl ExcelReader {
    /// Whether the first rows read from a sheet hold any content; the first sheet
    /// for which this holds is the one opened by default.
    pub fn sheet_has_content(rows: &Vec<Vec<String>>) -> (r: bool)
        ensures
            r == has_content(rows_view(rows@)),
    {
        let ghost v = rows_view(rows@);
        let mut r: usize = 0;
        while r < rows.len()
            invariant
                r <= rows@.len(),
                v == rows_view(rows@),
                forall|i: int, c: int|
                    0 <= i < r && 0 <= c < v[i].len() ==> trim(#[trigger] v[i][c]).len() == 0,
            decreases rows@.len() - r,
        {
            let row = &rows[r];
            let mut c: usize = 0;
            while c < row.len()
                invariant
                    r < rows@.len(),
                    c <= row@.len(),
                    v == rows_view(rows@),
                    *row == rows@[r as int],
                    forall|k: int| 0 <= k < c ==> trim(#[trigger] v[r as int][k]).len() == 0,
                decreases row@.len() - c,
            {
                let cell = chars_of(row[c].as_str());
                let (lo, hi) = crate::text::trim_bounds(cell.as_slice());
                assert(v[r as int][c as int] == cell@);
                if lo < hi {
                    assert(trim(v[r as int][c as int]).len() > 0);
                    return true;
                }
                c = c + 1;
            }
            r = r + 1;
        }
        false
    }

    /// The sheet opened by default: the first of `sheets` whose first rows hold
    /// content, else the first sheet (see `default_sheet`). `previews[k]` are the
    /// first rows of `sheets[k]`, read in order until one holds content.
    pub fn first_non_empty_sheet(sheets: &Vec<String>, previews: &Vec<Vec<Vec<String>>>) -> (r: Result<
        String,
        AppError,
    >)
        ensures
            sheets@.len() == 0 ==> r matches Err(AppError::EmptyWorksheet),
            sheets@.len() > 0 ==> (r matches Ok(name) && name@ == sheets@[default_sheet(
                previews@.map_values(|p: Vec<Vec<String>>| rows_view(p@)),
                if sheets@.len() <= previews@.len() {
                    sheets@.len() as int
                } else {
                    previews@.len() as int
                },
            )]@),
    {
        if sheets.len() == 0 {
            return Err(AppError::EmptyWorksheet);
        }
        let ghost pv = previews@.map_values(|p: Vec<Vec<String>>| rows_view(p@));
        let ghost n = if sheets@.len() <= previews@.len() {
            sheets@.len() as int
        } else {
            previews@.len() as int
        };
        let mut k: usize = 0;
        while k < sheets.len() && k < previews.len()
            invariant
                k <= sheets@.len(),
                k <= previews@.len(),
                sheets@.len() > 0,
                pv == previews@.map_values(|p: Vec<Vec<String>>| rows_view(p@)),
                n == (if sheets@.len() <= previews@.len() {
                    sheets@.len() as int
                } else {
                    previews@.len() as int
                }),
                forall|q: int| 0 <= q < k ==> !has_content(#[trigger] pv[q]),
            decreases sheets@.len() - k,
        {
            assert(pv[k as int] == rows_view(previews@[k as int]@));
            if Self::sheet_has_content(&previews[k]) {
                proof {
                    lemma_first_match_at(pv.take(n), |p: Seq<Seq<Seq<char>>>| has_content(p), k as int);
                }
                return Ok(sheets[k].clone());
            }
            k = k + 1;
        }
        proof {
            lemma_first_match_none(pv.take(n), |p: Seq<Seq<Seq<char>>>| has_content(p));
        }
        Ok(sheets[0].clone())
    }

    /// The file name of a workbook path, or "workbook.xlsx" where it has none.
    pub fn file_name(path: &str) -> (r: String)
        ensures
            r@ == "workbook.xlsx"@ || crate::text::contains_seq(path@, r@),
            names_file(path@) ==> r@ == last_component(path@),
            names_no_file(path@) ==> r@ == "workbook.xlsx"@,
    {
        match path_file_name(path) {
            Some(name) => name,
            None => "workbook.xlsx".to_owned(),
        }
    }
}

/// Decides `ensure_excel` from whether the file exists and its extension.
pub fn check_excel(exists: bool, extension: Option<&str>) -> (r: Result<(), AppError>)
    ensures
        !exists ==> r matches Err(AppError::FileNotFound),
        exists ==> match extension {
            Some(e) if supported_extension(e@) => r is Ok,
            _ => r matches Err(AppError::UnsupportedExcel),
        },
{
    if !exists {
        return Err(AppError::FileNotFound);
    }
    match extension {
        Some(e) => {
            let cs = chars_of(e);
            let low = to_ascii_lower_chars(cs.as_slice());
            let l = low.as_slice();
            let xlsx = chars_of("xlsx");
            let xls = chars_of("xls");
            let xlsm = chars_of("xlsm");
            let xlsb = chars_of("xlsb");
            let ods = chars_of("ods");
            if crate::text::seq_eq(l, xlsx.as_slice()) || crate::text::seq_eq(l, xls.as_slice())
                || crate::text::seq_eq(l, xlsm.as_slice()) || crate::text::seq_eq(l, xlsb.as_slice())
                || crate::text::seq_eq(l, ods.as_slice()) {
                Ok(())
            } else {
                Err(AppError::UnsupportedExcel)
            }
        },
        None => Err(AppError::UnsupportedExcel),
    }
}

/// A workbook path must name an existing file with a spreadsheet extension.
pub fn ensure_excel(path: &str, exists: bool) -> (r: Result<(), AppError>)
    ensures
        !exists ==> r matches Err(AppError::FileNotFound),
        exists ==> (r is Ok || r matches Err(AppError::UnsupportedExcel)),
        r is Ok ==> exists,
        exists && names_file(path@) ==> (r is Ok <==> (extension_of(last_component(path@)) matches Some(
            e,
        ) && supported_extension(e))),
{
    let ext = path_extension(path);
    match ext {
        Some(e) => check_excel(exists, Some(e.as_str())),
        None => check_excel(exists, None),
    }
}

} // verus!
