//! Template records.
use vstd::prelude::*;

use crate::domain::mapping::clone_opt_string;
use crate::text::{opt_view, rows_view, strings_view};

verus! {

#[derive(Debug)]
pub struct TemplateColumn {
    pub index: usize,
    pub name: String,
    pub normalized_name: String,
    pub path: Option<String>,
}

pub struct TemplateColumnView {
    pub index: usize,
    pub name: Seq<char>,
    pub normalized_name: Seq<char>,
    pub path: Option<Seq<char>>,
}

impl View for TemplateColumn {
    type V = TemplateColumnView;

    open spec fn view(&self) -> TemplateColumnView {
        TemplateColumnView {
            index: self.index,
            name: self.name@,
            normalized_name: self.normalized_name@,
            path: opt_view(self.path),
        }
    }
}

pub open spec fn columns_view(v: Seq<TemplateColumn>) -> Seq<TemplateColumnView> {
    v.map_values(|c: TemplateColumn| c@)
}

impl Clone for TemplateColumn {
    fn clone(&self) -> (r: Self)
        ensures
            r@ == self@,
    {
        TemplateColumn {
            index: self.index,
            name: self.name.clone(),
            normalized_name: self.normalized_name.clone(),
            path: clone_opt_string(&self.path),
        }
    }
}

/// Copies of the columns.
pub fn clone_columns(v: &Vec<TemplateColumn>) -> (r: Vec<TemplateColumn>)
    ensures
        columns_view(r@) == columns_view(v@),
{
    let mut r: Vec<TemplateColumn> = Vec::new();
    let mut i: usize = 0;
    while i < v.len()
        invariant
            i <= v@.len(),
            r@.len() == i,
            forall|k: int| 0 <= k < i ==> (#[trigger] r@[k])@ == v@[k]@,
        decreases v@.len() - i,
    {
        r.push(v[i].clone());
        i = i + 1;
    }
    assert(columns_view(r@) =~= columns_view(v@));
    r
}

#[derive(Debug)]
pub struct TemplateSchema {
    pub id: String,
    pub file_name: String,
    pub file_path: String,
    pub sheet_name: String,
    pub header_start_row: usize,
    pub header_end_row: usize,
    pub data_start_row: usize,
    pub columns: Vec<TemplateColumn>,
}

impl Clone for TemplateSchema {
    fn clone(&self) -> (r: Self)
        ensures
            r.id@ == self.id@,
            r.file_name@ == self.file_name@,
            r.file_path@ == self.file_path@,
            r.sheet_name@ == self.sheet_name@,
            r.header_start_row == self.header_start_row,
            r.header_end_row == self.header_end_row,
            r.data_start_row == self.data_start_row,
            columns_view(r.columns@) == columns_view(self.columns@),
    {
        TemplateSchema {
            id: self.id.clone(),
            file_name: self.file_name.clone(),
            file_path: self.file_path.clone(),
            sheet_name: self.sheet_name.clone(),
            header_start_row: self.header_start_row,
            header_end_row: self.header_end_row,
            data_start_row: self.data_start_row,
            columns: clone_columns(&self.columns),
        }
    }
}

#[derive(Debug)]
pub struct ExcelPreview {
    pub sheet_name: String,
    pub header_row: usize,
    pub start_row: usize,
    pub rows: Vec<Vec<String>>,
}

pub struct ExcelPreviewView {
    pub sheet_name: Seq<char>,
    pub header_row: usize,
    pub start_row: usize,
    pub rows: Seq<Seq<Seq<char>>>,
}

impl View for ExcelPreview {
    type V = ExcelPreviewView;

    open spec fn view(&self) -> ExcelPreviewView {
        ExcelPreviewView {
            sheet_name: self.sheet_name@,
            header_row: self.header_row,
            start_row: self.start_row,
            rows: rows_view(self.rows@),
        }
    }
}

impl Clone for ExcelPreview {
    fn clone(&self) -> (r: Self)
        ensures
            r@ == self@,
    {
        let mut rows: Vec<Vec<String>> = Vec::new();
        let mut i: usize = 0;
        while i < self.rows.len()
            invariant
                i <= self.rows@.len(),
                rows_view(rows@) == rows_view(self.rows@).take(i as int),
            decreases self.rows@.len() - i,
        {
            let ghost before = rows@;
            let row = crate::text::clone_strings(&self.rows[i]);
            rows.push(row);
            assert(rows_view(rows@) =~= rows_view(before).push(strings_view(row@)));
            i = i + 1;
            assert(rows_view(self.rows@).take(i as int) =~= rows_view(self.rows@).take(i - 1).push(
                rows_view(self.rows@)[i - 1],
            ));
        }
        assert(rows_view(self.rows@).take(i as int) =~= rows_view(self.rows@));
        ExcelPreview {
            sheet_name: self.sheet_name.clone(),
            header_row: self.header_row,
            start_row: self.start_row,
            rows,
        }
    }
}

#[derive(Debug)]
pub struct ConfirmTemplateRequest {
    pub file_path: String,
    pub file_name: String,
    pub sheet_name: String,
    pub header_row: usize,
    pub data_start_row: Option<usize>,
}

#[derive(Debug)]
pub struct AppInfo {
    pub embedding_backend: String,
    pub embedding_model_version: String,
}

} // verus!
