//! Errors reported to the user, with their (Chinese) messages.
use vstd::prelude::*;

use crate::text::{chars_of, concat, string_of};

verus! {

#[derive(Debug)]
pub enum AppError {
    FileNotFound,
    UnsupportedExcel,
    SheetNotFound,
    EmptyWorksheet,
    HeaderNotFound,
    InvalidHeaderRow,
    InvalidMapping(String),
    MappingConflict(String),
    DatabaseError(String),
    ExcelWriteError(String),
    TemplateNotConfirmed,
    SessionNotFound,
    NotAllConfirmed,
    ExcelRead(String),
    Internal(String),
}

/// The message shown for an error.
pub open spec fn message_of(e: AppError) -> Seq<char> {
    match e {
        AppError::FileNotFound => "找不到文件"@,
        AppError::UnsupportedExcel => "不支持的 Excel 文件"@,
        AppError::SheetNotFound => "找不到工作表"@,
        AppError::EmptyWorksheet => "工作表为空"@,
        AppError::HeaderNotFound => "未能识别表头"@,
        AppError::InvalidHeaderRow => "表头行无效"@,
        AppError::InvalidMapping(s) => "映射无效："@ + s@,
        AppError::MappingConflict(s) => s@,
        AppError::DatabaseError(s) => "数据库错误："@ + s@,
        AppError::ExcelWriteError(s) => "Excel 写入失败："@ + s@,
        AppError::TemplateNotConfirmed => "尚未确认模板"@,
        AppError::SessionNotFound => "找不到导入会话"@,
        AppError::NotAllConfirmed => "仍有文件未确认映射，无法开始转换"@,
        AppError::ExcelRead(s) => "无法读取 Excel："@ + s@,
        AppError::Internal(s) => s@,
    }
}

fn prefixed(prefix: &str, detail: &String) -> (r: String)
    ensures
        r@ == prefix@ + detail@,
{
    let a = chars_of(prefix);
    let b = chars_of(detail.as_str());
    string_of(concat(a.as_slice(), b.as_slice()).as_slice())
}

impl AppError {
    /// The text shown to the user (what `Display` prints).
    pub fn message(&self) -> (r: String)
        ensures
            r@ == message_of(*self),
    {
        match self {
            AppError::FileNotFound => "找不到文件".to_owned(),
            AppError::UnsupportedExcel => "不支持的 Excel 文件".to_owned(),
            AppError::SheetNotFound => "找不到工作表".to_owned(),
            AppError::EmptyWorksheet => "工作表为空".to_owned(),
            AppError::HeaderNotFound => "未能识别表头".to_owned(),
            AppError::InvalidHeaderRow => "表头行无效".to_owned(),
            AppError::InvalidMapping(s) => prefixed("映射无效：", s),
            AppError::MappingConflict(s) => s.clone(),
            AppError::DatabaseError(s) => prefixed("数据库错误：", s),
            AppError::ExcelWriteError(s) => prefixed("Excel 写入失败：", s),
            AppError::TemplateNotConfirmed => "尚未确认模板".to_owned(),
            AppError::SessionNotFound => "找不到导入会话".to_owned(),
            AppError::NotAllConfirmed => "仍有文件未确认映射，无法开始转换".to_owned(),
            AppError::ExcelRead(s) => prefixed("无法读取 Excel：", s),
            AppError::Internal(s) => s.clone(),
        }
    }
}

} // verus!
