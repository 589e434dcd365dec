//! Rearranges source data rows into template column order.
use vstd::prelude::*;

use crate::domain::mapping::{mappings_view, HeaderMapping, HeaderMappingView};
use crate::domain::template::{columns_view, TemplateColumn, TemplateColumnView, TemplateSchema};
use crate::text::{rows_view, strings_view};

verus! {

/// The source column that feeds template column index `target`: that of the
/// last mapping onto it.
pub open spec fn feeding_source(mappings: Seq<HeaderMappingView>, target: usize) -> Option<usize>
    decreases mappings.len(),
{
    if mappings.len() == 0 {
        None
    } else {
        let m = mappings.last();
        if m.target_column_index == Some(target) {
            Some(m.source_column_index)
        } else {
            feeding_source(mappings.drop_last(), target)
        }
    }
}

/// The output cell for template column index `target`: the feeding source cell, or empty.
pub open spec fn output_cell(row: Seq<Seq<char>>, mappings: Seq<HeaderMappingView>, target: usize) -> Seq<
    char,
> {
    match feeding_source(mappings, target) {
        Some(s) => if s < row.len() {
            row[s as int]
        } else {
            Seq::empty()
        },
        None => Seq::empty(),
    }
}

/// A source row laid out in the template's column order.
pub open spec fn output_row(
    row: Seq<Seq<char>>,
    mappings: Seq<HeaderMappingView>,
    columns: Seq<TemplateColumnView>,
) -> Seq<Seq<char>> {
    Seq::new(columns.len(), |j: int| output_cell(row, mappings, columns[j].index))
}

/// The source column of the last mapping onto template column index `target`.
fn feeding_source_of(mappings: &Vec<HeaderMapping>, target: usize) -> (r: Option<usize>)
    ensures
        r == feeding_source(mappings_view(mappings@), target),
{
    let ghost mv = mappings_view(mappings@);
    let mut found: Option<usize> = None;
    let mut i: usize = 0;
    while i < mappings.len()
        invariant
            i <= mappings@.len(),
            mv == mappings_view(mappings@),
            found == feeding_source(mv.take(i as int), target),
        decreases mappings@.len() - i,
    {
        assert(mv.take(i + 1).drop_last() =~= mv.take(i as int));
        assert(mv.take(i + 1).last() == mappings@[i as int]@);
        if mappings[i].target_column_index == Some(target) {
            found = Some(mappings[i].source_column_index);
        }
        i = i + 1;
    }
    assert(mv.take(i as int) =~= mv);
    found
}

pub struct ExcelTransformer;

impl ExcelTransformer {
    pub fn transform(
        source_rows: &Vec<Vec<String>>,
        mappings: &Vec<HeaderMapping>,
        template: &TemplateSchema,
    ) -> (r: Vec<Vec<String>>)
        ensures
            r@.len() == source_rows@.len(),
            forall|i: int|
                0 <= i < r@.len() ==> strings_view(#[trigger] r@[i]@) == output_row(
                    rows_view(source_rows@)[i],
                    mappings_view(mappings@),
                    columns_view(template.columns@),
                ),
    {
        let ghost mv = mappings_view(mappings@);
        let ghost cv = columns_view(template.columns@);
        let width = template.columns.len();
        let mut slots: Vec<Option<usize>> = Vec::new();
        let mut t: usize = 0;
        while t < width
            invariant
                t <= width == template.columns@.len() == cv.len(),
                mv == mappings_view(mappings@),
                cv == columns_view(template.columns@),
                slots@.len() == t,
                forall|k: int| 0 <= k < t ==> #[trigger] slots@[k] == feeding_source(mv, cv[k].index),
            decreases width - t,
        {
            slots.push(feeding_source_of(mappings, template.columns[t].index));
            t = t + 1;
        }
        let mut out: Vec<Vec<String>> = Vec::new();
        let mut r: usize = 0;
        while r < source_rows.len()
            invariant
                r <= source_rows@.len(),
                mv == mappings_view(mappings@),
                cv == columns_view(template.columns@),
                width == template.columns@.len(),
                slots@.len() == width,
                forall|k: int| 0 <= k < width ==> #[trigger] slots@[k] == feeding_source(mv, cv[k].index),
                out@.len() == r,
                forall|q: int|
                    0 <= q < r ==> strings_view(#[trigger] out@[q]@) == output_row(
                        rows_view(source_rows@)[q],
                        mv,
                        cv,
                    ),
            decreases source_rows@.len() - r,
        {
            let row = &source_rows[r];
            let ghost rowv = rows_view(source_rows@)[r as int];
            assert(rowv == strings_view(row@));
            let mut cells: Vec<String> = Vec::new();
            let mut j: usize = 0;
            while j < width
                invariant
                    j <= width == template.columns@.len() == cv.len(),
                    cv == columns_view(template.columns@),
                    slots@.len() == width,
                    forall|k: int| 0 <= k < width ==> #[trigger] slots@[k] == feeding_source(mv, cv[k].index),
                    rowv == strings_view(row@),
                    cells@.len() == j,
                    forall|q: int|
                        0 <= q < j ==> (#[trigger] cells@[q])@ == output_cell(rowv, mv, cv[q].index),
                decreases width - j,
            {
                let cell = match slots[j] {
                    Some(src) => if src < row.len() {
                        row[src].clone()
                    } else {
                        String::new()
                    },
                    None => String::new(),
                };
                cells.push(cell);
                j = j + 1;
            }
            assert(strings_view(cells@) =~= output_row(rowv, mv, cv));
            out.push(cells);
            r = r + 1;
        }
        out
    }

    /// `transform`, with the label of the rows' source appended to each row
    /// (the extra "来源" column of `TemplateSchema::with_source_column`).
    pub fn transform_labeled(
        source_rows: &Vec<Vec<String>>,
        mappings: &Vec<HeaderMapping>,
        template: &TemplateSchema,
        label: &String,
    ) -> (r: Vec<Vec<String>>)
        ensures
            r@.len() == source_rows@.len(),
            forall|i: int|
                0 <= i < r@.len() ==> strings_view(#[trigger] r@[i]@) == output_row(
                    rows_view(source_rows@)[i],
                    mappings_view(mappings@),
                    columns_view(template.columns@),
                ).push(label@),
    {
        let mut rows = Self::transform(source_rows, mappings, template);
        let mut out: Vec<Vec<String>> = Vec::new();
        let mut i: usize = 0;
        while i < rows.len()
            invariant
                i <= rows@.len() == source_rows@.len(),
                forall|q: int|
                    0 <= q < rows@.len() ==> strings_view(#[trigger] rows@[q]@) == output_row(
                        rows_view(source_rows@)[q],
                        mappings_view(mappings@),
                        columns_view(template.columns@),
                    ),
                out@.len() == i,
                forall|q: int|
                    0 <= q < i ==> strings_view(#[trigger] out@[q]@) == output_row(
                        rows_view(source_rows@)[q],
                        mappings_view(mappings@),
                        columns_view(template.columns@),
                    ).push(label@),
            decreases rows@.len() - i,
        {
            let mut row = crate::text::clone_strings(&rows[i]);
            let ghost before = row@;
            row.push(label.clone());
            assert(strings_view(row@) =~= strings_view(before).push(label@));
            out.push(row);
            i = i + 1;
        }
        out
    }
}

/// The name of the extra output column that records each row's source file.
pub open spec fn source_column_name() -> Seq<char> {
    "来源"@
}

impl TemplateSchema {
    /// The template with one more column, "来源", after the others; its index is
    /// the number of template columns.
    pub fn with_source_column(&self) -> (r: TemplateSchema)
        ensures
            r.id@ == self.id@,
            r.file_name@ == self.file_name@,
            r.file_path@ == self.file_path@,
            r.sheet_name@ == self.sheet_name@,
            r.header_start_row == self.header_start_row,
            r.header_end_row == self.header_end_row,
            r.data_start_row == self.data_start_row,
            columns_view(r.columns@) == columns_view(self.columns@).push(
                TemplateColumnView {
                    index: self.columns@.len() as usize,
                    name: source_column_name(),
                    normalized_name: source_column_name(),
                    path: None,
                },
            ),
    {
        let mut columns: Vec<TemplateColumn> = Vec::new();
        let mut i: usize = 0;
        while i < self.columns.len()
            invariant
                i <= self.columns@.len(),
                columns@.len() == i,
                forall|q: int| 0 <= q < i ==> (#[trigger] columns@[q])@ == self.columns@[q]@,
            decreases self.columns@.len() - i,
        {
            columns.push(self.columns[i].clone());
            i = i + 1;
        }
        let ghost before = columns@;
        columns.push(
            TemplateColumn {
                index: self.columns.len(),
                name: "来源".to_owned(),
                normalized_name: "来源".to_owned(),
                path: None,
            },
        );
        assert(columns_view(columns@) =~= columns_view(self.columns@).push(
            TemplateColumnView {
                index: self.columns@.len() as usize,
                name: source_column_name(),
                normalized_name: source_column_name(),
                path: None,
            },
        ));
        TemplateSchema {
            id: self.id.clone(),
            file_name: self.file_name.clone(),
            file_path: self.file_path.clone(),
            sheet_name: self.sheet_name.clone(),
            header_start_row: self.header_start_row,
            header_end_row: self.header_end_row,
            data_start_row: self.data_start_row,
            columns,
        }
    }
}

} // verus!
