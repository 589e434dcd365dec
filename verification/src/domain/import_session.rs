//! Import sessions: one per source workbook.
use vstd::prelude::*;

use crate::domain::mapping::{
    clone_mappings, clone_opt_string, clone_sources, mappings_view, sources_view, HeaderMapping,
    HeaderMappingView, SourceColumn, SourceColumnView,
};
use crate::domain::template::{ExcelPreview, ExcelPreviewView};
use crate::error::AppError;
use crate::text::{clone_strings, opt_view, strings_view};

verus! {

#[derive(Debug, Clone, Copy, PartialEq, Eq, Structural)]
pub enum ImportStatus {
    Pending,
    Confirmed,
    Error,
}

#[derive(Debug)]
pub struct ImportSession {
    pub id: String,
    pub file_path: String,
    pub file_name: String,
    pub sheet_name: String,
    pub sheets: Vec<String>,
    pub header_row: usize,
    pub data_start_row: usize,
    pub source_columns: Vec<SourceColumn>,
    pub mappings: Vec<HeaderMapping>,
    pub preview: ExcelPreview,
    pub confirmed: bool,
    pub status: ImportStatus,
    pub error: Option<String>,
    pub read_filtered_only: bool,
}

impl ImportSession {
    /// A new session for a sheet whose header is on row `header_row`: its data
    /// starts on the row below, and it is pending, not confirmed and without an
    /// error; the mappings it carries are recommendations that the user still
    /// has to confirm. A header on the last row a `usize` counts is refused.
    pub fn pending(
        id: String,
        file_path: String,
        file_name: String,
        sheet_name: String,
        sheets: Vec<String>,
        header_row: usize,
        source_columns: Vec<SourceColumn>,
        mappings: Vec<HeaderMapping>,
        preview: ExcelPreview,
        read_filtered_only: bool,
    ) -> (r: Result<ImportSession, AppError>)
        ensures
            header_row == usize::MAX ==> r matches Err(AppError::InvalidHeaderRow),
            header_row < usize::MAX ==> r == Ok::<ImportSession, AppError>((ImportSession {
                id,
                file_path,
                file_name,
                sheet_name,
                sheets,
                header_row,
                data_start_row: (header_row + 1) as usize,
                source_columns,
                mappings,
                preview,
                confirmed: false,
                status: ImportStatus::Pending,
                error: None,
                read_filtered_only,
            })),
    {
        if header_row == usize::MAX {
            return Err(AppError::InvalidHeaderRow);
        }
        Ok(
            ImportSession {
                id,
                file_path,
                file_name,
                sheet_name,
                sheets,
                header_row,
                data_start_row: header_row + 1,
                source_columns,
                mappings,
                preview,
                confirmed: false,
                status: ImportStatus::Pending,
                error: None,
                read_filtered_only,
            },
        )
    }
}

pub struct ImportSessionView {
    pub id: Seq<char>,
    pub file_path: Seq<char>,
    pub file_name: Seq<char>,
    pub sheet_name: Seq<char>,
    pub sheets: Seq<Seq<char>>,
    pub header_row: usize,
    pub data_start_row: usize,
    pub source_columns: Seq<SourceColumnView>,
    pub mappings: Seq<HeaderMappingView>,
    pub preview: ExcelPreviewView,
    pub confirmed: bool,
    pub status: ImportStatus,
    pub error: Option<Seq<char>>,
    pub read_filtered_only: bool,
}

impl View for ImportSession {
    type V = ImportSessionView;

    open spec fn view(&self) -> ImportSessionView {
        ImportSessionView {
            id: self.id@,
            file_path: self.file_path@,
            file_name: self.file_name@,
            sheet_name: self.sheet_name@,
            sheets: strings_view(self.sheets@),
            header_row: self.header_row,
            data_start_row: self.data_start_row,
            source_columns: sources_view(self.source_columns@),
            mappings: mappings_view(self.mappings@),
            preview: self.preview@,
            confirmed: self.confirmed,
            status: self.status,
            error: opt_view(self.error),
            read_filtered_only: self.read_filtered_only,
        }
    }
}

impl Clone for ImportSession {
    fn clone(&self) -> (r: Self)
        ensures
            r@ == self@,
    {
        ImportSession {
            id: self.id.clone(),
            file_path: self.file_path.clone(),
            file_name: self.file_name.clone(),
            sheet_name: self.sheet_name.clone(),
            sheets: clone_strings(&self.sheets),
            header_row: self.header_row,
            data_start_row: self.data_start_row,
            source_columns: clone_sources(&self.source_columns),
            mappings: clone_mappings(&self.mappings),
            preview: self.preview.clone(),
            confirmed: self.confirmed,
            status: self.status,
            error: clone_opt_string(&self.error),
            read_filtered_only: self.read_filtered_only,
        }
    }
}

#[derive(Debug)]
pub struct ConvertRequest {
    pub session_ids: Vec<String>,
    pub output_path: String,
}

#[derive(Debug)]
pub struct OutputFile {
    pub session_id: String,
    pub path: String,
    pub file_name: String,
}

} // verus!
