//! Template analysis and confirmation: the header row of the template sheet
//! becomes the template's columns.
use vstd::prelude::*;

use crate::domain::template::{
    columns_view, ConfirmTemplateRequest, TemplateColumn, TemplateColumnView, TemplateSchema,
};
use crate::error::AppError;
use crate::excel::preview::headers_at;
use crate::excel::reader::{row_visible, SheetData};
use crate::mapping::normalizer::{normalize_header, normalized};
use crate::text::{rows_view, strings_view, trim, trim_str};

verus! {

/// Every cell is blank.
pub open spec fn all_blank(cells: Seq<Seq<char>>) -> bool {
    forall|i: int| 0 <= i < cells.len() ==> trim(#[trigger] cells[i]).len() == 0
}

/// Position in the sheet's rows of a 1-based header row (row 0 reads as row 1).
pub open spec fn header_index(header_row: usize) -> int {
    if header_row >= 1 {
        header_row - 1
    } else {
        0
    }
}

/// The header row is shown, inside the sheet, and not blank.
pub open spec fn usable_header_row(sheet: &SheetData, header_row: usize, visible_only: bool) -> bool {
    &&& row_visible(sheet.hidden_rows@, header_row as int, visible_only)
    &&& header_index(header_row) < sheet.rows@.len()
    &&& !all_blank(rows_view(sheet.rows@)[header_index(header_row)])
}

pub fn is_blank_row(cells: &Vec<String>) -> (r: bool)
    ensures
        r == all_blank(strings_view(cells@)),
{
    let ghost cv = strings_view(cells@);
    let mut i: usize = 0;
    while i < cells.len()
        invariant
            i <= cells@.len(),
            cv == strings_view(cells@),
            forall|q: int| 0 <= q < i ==> trim(#[trigger] cv[q]).len() == 0,
        decreases cells@.len() - i,
    {
        assert(cv[i as int] == cells@[i as int]@);
        if trim_str(cells[i].as_str()).unicode_len() > 0 {
            return false;
        }
        i = i + 1;
    }
    true
}

/// The cells of a usable header row (see `usable_header_row`).
pub fn header_row_cells(sheet: &SheetData, header_row: usize, visible_only: bool) -> (r: Result<
    Vec<String>,
    AppError,
>)
    ensures
        match r {
            Ok(h) => usable_header_row(sheet, header_row, visible_only) && strings_view(h@)
                == rows_view(sheet.rows@)[header_index(header_row)],
            Err(e) => e is InvalidHeaderRow && !usable_header_row(sheet, header_row, visible_only),
        },
{
    let headers = headers_at(sheet, header_row, visible_only)?;
    if is_blank_row(&headers) {
        return Err(AppError::InvalidHeaderRow);
    }
    Ok(headers)
}

/// The template columns of a header row: its first `n` cells that are not
/// blank, with their positions and normalized names.
pub open spec fn template_columns_of(headers: Seq<Seq<char>>, n: int) -> Seq<TemplateColumnView>
    decreases n,
{
    if n <= 0 {
        Seq::empty()
    } else {
        let prev = template_columns_of(headers, n - 1);
        let name = headers[n - 1];
        if trim(name).len() > 0 {
            prev.push(
                TemplateColumnView {
                    index: (n - 1) as usize,
                    name,
                    normalized_name: normalized(name),
                    path: None,
                },
            )
        } else {
            prev
        }
    }
}

/// The template columns of a header row (see `template_columns_of`); a row
/// without any is refused.
pub fn template_columns_from(headers: &Vec<String>) -> (r: Result<Vec<TemplateColumn>, AppError>)
    ensures
        match r {
            Ok(cols) => columns_view(cols@) == template_columns_of(
                strings_view(headers@),
                headers@.len() as int,
            ) && cols@.len() > 0,
            Err(e) => e is HeaderNotFound && template_columns_of(
                strings_view(headers@),
                headers@.len() as int,
            ).len() == 0,
        },
{
    let ghost hv = strings_view(headers@);
    let mut cols: Vec<TemplateColumn> = Vec::new();
    let mut i: usize = 0;
    while i < headers.len()
        invariant
            i <= headers@.len(),
            hv == strings_view(headers@),
            columns_view(cols@) == template_columns_of(hv, i as int),
        decreases headers@.len() - i,
    {
        let name = &headers[i];
        assert(hv[i as int] == name@);
        if trim_str(name.as_str()).unicode_len() > 0 {
            let ghost before = cols@;
            cols.push(
                TemplateColumn {
                    index: i,
                    name: name.clone(),
                    normalized_name: normalize_header(name.as_str()),
                    path: None,
                },
            );
            assert(columns_view(cols@) =~= columns_view(before).push(
                TemplateColumnView {
                    index: i,
                    name: name@,
                    normalized_name: normalized(name@),
                    path: None,
                },
            ));
        }
        i = i + 1;
    }
    if cols.len() == 0 {
        return Err(AppError::HeaderNotFound);
    }
    Ok(cols)
}

/// The template that a confirmation request describes, read from the header
/// row of its sheet (all rows counted, hidden or not), under the id `id`. The
/// data starts at the requested row, or right below the header row.
pub fn build_template(request: ConfirmTemplateRequest, id: String, sheet: &SheetData) -> (r: Result<
    TemplateSchema,
    AppError,
>)
    ensures
        request.header_row == usize::MAX ==> r matches Err(AppError::InvalidHeaderRow),
        !usable_header_row(sheet, request.header_row, false) ==> r matches Err(
            AppError::InvalidHeaderRow,
        ),
        request.header_row < usize::MAX && usable_header_row(sheet, request.header_row, false) ==> {
            let h = rows_view(sheet.rows@)[header_index(request.header_row)];
            let cols = template_columns_of(h, h.len() as int);
            &&& (cols.len() == 0 ==> r matches Err(AppError::HeaderNotFound))
            &&& (cols.len() > 0 ==> (r matches Ok(t) && t.id@ == id@ && t.file_name@
                == request.file_name@ && t.file_path@ == request.file_path@ && t.sheet_name@
                == request.sheet_name@ && t.header_start_row == request.header_row
                && t.header_end_row == request.header_row && t.data_start_row == match request.data_start_row {
                Some(d) => d,
                None => (request.header_row + 1) as usize,
            } && columns_view(t.columns@) == cols))
        },
{
    if request.header_row == usize::MAX {
        return Err(AppError::InvalidHeaderRow);
    }
    let headers = header_row_cells(sheet, request.header_row, false)?;
    let columns = template_columns_from(&headers)?;
    let data_start_row = match request.data_start_row {
        Some(d) => d,
        None => request.header_row + 1,
    };
    Ok(
        TemplateSchema {
            id,
            file_name: request.file_name,
            file_path: request.file_path,
            sheet_name: request.sheet_name,
            header_start_row: request.header_row,
            header_end_row: request.header_row,
            data_start_row,
            columns,
        },
    )
}

/// The normalized names of the template's columns, the texts whose embeddings
/// represent the template.
pub fn template_texts(template: &TemplateSchema) -> (r: Vec<String>)
    ensures
        r@.len() == template.columns@.len(),
        forall|i: int| 0 <= i < r@.len() ==> #[trigger] r@[i]@ == template.columns@[i].normalized_name@,
{
    let mut r: Vec<String> = Vec::new();
    let mut i: usize = 0;
    while i < template.columns.len()
        invariant
            i <= template.columns@.len(),
            r@.len() == i,
            forall|q: int| 0 <= q < i ==> #[trigger] r@[q]@ == template.columns@[q].normalized_name@,
        decreases template.columns@.len() - i,
    {
        r.push(template.columns[i].normalized_name.clone());
        i = i + 1;
    }
    r
}

/// The sheet that a request names, where the workbook has it.
pub fn requested_sheet(sheets: &Vec<String>, name: Option<&str>) -> (r: Option<String>)
    ensures
        match name {
            Some(n) => if strings_view(sheets@).contains(n@) {
                r matches Some(s) && s@ == n@
            } else {
                r is None
            },
            None => r is None,
        },
{
    match name {
        Some(n) => {
            let ghost sv = strings_view(sheets@);
            let wanted = n.to_owned();
            let mut i: usize = 0;
            while i < sheets.len()
                invariant
                    i <= sheets@.len(),
                    sv == strings_view(sheets@),
                    wanted@ == n@,
                    name == Some(n),
                    forall|q: int| 0 <= q < i ==> sv[q] != n@,
                decreases sheets@.len() - i,
            {
                if sheets[i] == wanted {
                    assert(sv[i as int] == n@);
                    assert(sv.contains(n@));
                    return Some(wanted);
                }
                i = i + 1;
            }
            None
        },
        None => None,
    }
}

} // verus!
