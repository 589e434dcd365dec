//! Which rows a worksheet hides: the workbook part lists the sheets, its
//! relationships part says where each sheet's XML lies, and the sheet's rows
//! carry a `hidden` attribute. Opening the archive is left to the caller; the
//! parts' XML is read here.
use vstd::prelude::*;

use crate::error::AppError;
use crate::excel::xml_steps::{
    attr_local, attr_named, attr_value, attr_value_by_local, attrs_plain, plain_steps, same_text,
    step_plain, xml_read, xml_steps, PlainStep, XmlStep,
};

use crate::mapping::content::{
    all_digits, digits_value, eq_ignore_ascii_case, eq_ignore_ascii_case_chars,
    lemma_digits_value_grows, strip_sign,
};
use crate::text::{
    ascii_digit, ascii_lower, cat, chars_of, ends_with, is_ascii_digit, slice_chars, string_of,
    to_ascii_lower_chars,
};

verus! {

/// A `hidden` attribute value that hides its row: "1", or "true" in any case.
pub open spec fn hides(value: Seq<char>) -> bool {
    value == "1"@ || eq_ignore_ascii_case(value, "true"@)
}

pub fn is_hidden_value(value: &str) -> (r: bool)
    ensures
        r == hides(value@),
{
    let v = chars_of(value);
    let one = chars_of("1");
    let t = chars_of("true");
    crate::text::seq_eq(v.as_slice(), one.as_slice()) || eq_ignore_ascii_case_chars(
        v.as_slice(),
        t.as_slice(),
    )
}

/// A row number as `usize::from_str` reads it: an optional `+`, then one or more
/// ASCII digits, a value that fits in a `usize`.
pub open spec fn row_number_of(s: Seq<char>) -> Option<int> {
    let d = strip_sign(s, '+');
    if d.len() > 0 && all_digits(d) && digits_value(d) <= usize::MAX {
        Some(digits_value(d))
    } else {
        None
    }
}

pub fn parse_row_number(text: &str) -> (r: Option<usize>)
    ensures
        match row_number_of(text@) {
            Some(n) => r == Some(n as usize),
            None => r is None,
        },
{
    let s = chars_of(text);
    let d = if s.len() > 0 && s[0] == '+' {
        slice_chars(s.as_slice(), 1, s.len())
    } else {
        slice_chars(s.as_slice(), 0, s.len())
    };
    assert(d@ =~= strip_sign(text@, '+'));
    if d.len() == 0 {
        return None;
    }
    let mut i: usize = 0;
    while i < d.len()
        invariant
            i <= d@.len(),
            d@ == strip_sign(text@, '+'),
            forall|k: int| 0 <= k < i ==> is_ascii_digit(#[trigger] d@[k]),
        decreases d@.len() - i,
    {
        if !ascii_digit(d[i]) {
            return None;
        }
        i = i + 1;
    }
    let mut v: u128 = 0;
    let mut j: usize = 0;
    while j < d.len()
        invariant
            j <= d@.len(),
            d@ == strip_sign(text@, '+'),
            d@.len() > 0,
            all_digits(d@),
            v == digits_value(d@.take(j as int)),
            v <= usize::MAX,
        decreases d@.len() - j,
    {
        assert(d@.take(j + 1).drop_last() =~= d@.take(j as int));
        let digit = (d[j] as u32 - '0' as u32) as u128;
        let next = v * 10 + digit;
        if next > usize::MAX as u128 {
            proof {
                lemma_digits_value_grows(d@, j + 1);
            }
            return None;
        }
        v = next;
        j = j + 1;
    }
    assert(d@.take(j as int) =~= d@);
    Some(v as usize)
}

/// An attribute key names `local`: it is `local`, or ends with `:` and `local`.
pub open spec fn key_names(key: Seq<char>, local: Seq<char>) -> bool {
    key == local || ends_with(key, seq![':'] + local)
}

pub fn attr_key_names(key: &str, local: &str) -> (r: bool)
    ensures
        r == key_names(key@, local@),
{
    let k = chars_of(key);
    let l = chars_of(local);
    let prefixed = cat(":", local);
    let p = chars_of(prefixed.as_str());
    proof {
        reveal_strlit(":");
    }
    assert(p@ =~= seq![':'] + local@);
    crate::text::seq_eq(k.as_slice(), l.as_slice()) || crate::text::ends_with_chars(
        k.as_slice(),
        p.as_slice(),
    )
}

/// The path inside the workbook archive of a worksheet that a relationship
/// targets: an absolute target without its leading slashes, a relative one
/// under "xl/".
pub open spec fn sheet_path_of(target: Seq<char>) -> Seq<char> {
    if target.len() > 0 && target[0] == '/' {
        strip_slashes(target)
    } else {
        "xl/"@ + target
    }
}

/// `s` without its leading slashes.
pub open spec fn strip_slashes(s: Seq<char>) -> Seq<char>
    decreases s.len(),
{
    if s.len() > 0 && s[0] == '/' {
        strip_slashes(s.drop_first())
    } else {
        s
    }
}

pub fn normalize_sheet_path(target: &str) -> (r: String)
    ensures
        r@ == sheet_path_of(target@),
{
    let t = chars_of(target);
    if t.len() > 0 && t[0] == '/' {
        let mut i: usize = 0;
        assert(t@.skip(0) =~= t@);
        while i < t.len() && t[i] == '/'
            invariant
                i <= t@.len(),
                strip_slashes(t@) == strip_slashes(t@.skip(i as int)),
            decreases t@.len() - i,
        {
            assert(t@.skip(i as int).drop_first() =~= t@.skip(i + 1));
            i = i + 1;
        }
        let rest = slice_chars(t.as_slice(), i, t.len());
        assert(rest@ =~= t@.skip(i as int));
        string_of(rest.as_slice())
    } else {
        cat("xl/", target)
    }
}

/// What a scan of a workbook part finds: a value, nothing, or a reader failure
/// with its message.
pub enum Found {
    Value(Seq<char>),
    Nothing,
    Failure(Seq<char>),
}

/// `r` reports what the scan found: the value, `SheetNotFound` for nothing,
/// `ExcelRead` with the message for a failure.
pub open spec fn reports(r: Result<String, AppError>, found: Found) -> bool {
    match found {
        Found::Value(v) => r matches Ok(s) && s@ == v,
        Found::Nothing => r matches Err(AppError::SheetNotFound),
        Found::Failure(m) => r matches Err(AppError::ExcelRead(s)) && s@ == m,
    }
}

/// An attribute's value, or empty text where it is missing.
pub open spec fn or_empty(v: Option<Seq<char>>) -> Seq<char> {
    match v {
        Some(t) => t,
        None => Seq::empty(),
    }
}

/// The relationship id of the sheet called `name` in the workbook part's
/// steps: the first `sheet` element inside `sheets` whose `name` attribute is
/// `name` gives its `id` attribute (with any prefix), or nothing where it has
/// none; `in_sheets` says whether the steps start inside `sheets`.
pub open spec fn sheet_rid_from(steps: Seq<PlainStep>, in_sheets: bool, name: Seq<char>) -> Found
    decreases steps.len(),
{
    if steps.len() == 0 {
        Found::Nothing
    } else {
        let rest = steps.drop_first();
        let (kind, local, attrs) = steps[0];
        if kind == 0 {
            if local == "sheets"@ {
                sheet_rid_from(rest, true, name)
            } else if in_sheets && local == "sheet"@ && or_empty(attr_named(attrs, "name"@))
                == name {
                match attr_local(attrs, "id"@) {
                    Some(id) => Found::Value(id),
                    None => Found::Nothing,
                }
            } else {
                sheet_rid_from(rest, in_sheets, name)
            }
        } else if kind == 1 {
            sheet_rid_from(
                rest,
                if local == "sheets"@ {
                    false
                } else {
                    in_sheets
                },
                name,
            )
        } else if kind == 3 {
            Found::Nothing
        } else if kind == 4 {
            Found::Failure(local)
        } else {
            sheet_rid_from(rest, in_sheets, name)
        }
    }
}

/// Finds the relationship id of the sheet called `sheet_name` among the steps
/// of the workbook part.
pub fn relationship_id_in(steps: &Vec<XmlStep>, sheet_name: &str) -> (r: Result<String, AppError>)
    ensures
        reports(r, sheet_rid_from(plain_steps(steps@), false, sheet_name@)),
{
    let mut in_sheets = false;
    let mut i: usize = 0;
    assert(plain_steps(steps@).skip(0) =~= plain_steps(steps@));
    while i < steps.len()
        invariant
            i <= steps@.len(),
            sheet_rid_from(plain_steps(steps@), false, sheet_name@) == sheet_rid_from(
                plain_steps(steps@).skip(i as int),
                in_sheets,
                sheet_name@,
            ),
        decreases steps@.len() - i,
    {
        assert(plain_steps(steps@).skip(i as int).drop_first() =~= plain_steps(steps@).skip(i + 1));
        assert(plain_steps(steps@).skip(i as int)[0] == step_plain(steps@[i as int]));
        match &steps[i] {
            XmlStep::Open { local, attrs } => {
                if same_text(local.as_str(), "sheets") {
                    in_sheets = true;
                } else if in_sheets && same_text(local.as_str(), "sheet") {
                    let name = match attr_value(attrs, "name") {
                        Some(v) => v,
                        None => String::new(),
                    };
                    if same_text(name.as_str(), sheet_name) {
                        return match attr_value_by_local(attrs, "id") {
                            Some(id) => Ok(id),
                            None => Err(AppError::SheetNotFound),
                        };
                    }
                }
            },
            XmlStep::Close { local } => {
                if same_text(local.as_str(), "sheets") {
                    in_sheets = false;
                }
            },
            XmlStep::Other => {},
            XmlStep::Eof => {
                return Err(AppError::SheetNotFound);
            },
            XmlStep::Fail { message } => {
                return Err(AppError::ExcelRead(message.clone()));
            },
        }
        i = i + 1;
    }
    Err(AppError::SheetNotFound)
}

/// The relationship id of the sheet called `sheet_name`, read from the workbook
/// part's XML.
pub fn sheet_relationship_id(workbook_xml: &str, sheet_name: &str) -> (r: Result<String, AppError>)
    ensures
        reports(r, sheet_rid_from(xml_read(workbook_xml@), false, sheet_name@)),
{
    let steps = xml_steps(workbook_xml);
    relationship_id_in(&steps, sheet_name)
}

/// Where the relationship `rid` points, in the relationships part's steps: the
/// first `Relationship` element whose `Id` attribute is `rid` gives its `Target`
/// attribute; one without a target is a failure.
pub open spec fn target_from(steps: Seq<PlainStep>, rid: Seq<char>) -> Found
    decreases steps.len(),
{
    if steps.len() == 0 {
        Found::Nothing
    } else {
        let rest = steps.drop_first();
        let (kind, local, attrs) = steps[0];
        if kind == 0 && local == "Relationship"@ && or_empty(attr_named(attrs, "Id"@)) == rid {
            match attr_named(attrs, "Target"@) {
                Some(t) => Found::Value(t),
                None => Found::Failure("缺少工作表路径"@),
            }
        } else if kind == 3 {
            Found::Nothing
        } else if kind == 4 {
            Found::Failure(local)
        } else {
            target_from(rest, rid)
        }
    }
}

/// Finds where the relationship `relationship_id` points among the steps of the
/// relationships part.
pub fn relationship_target_in(steps: &Vec<XmlStep>, relationship_id: &str) -> (r: Result<
    String,
    AppError,
>)
    ensures
        reports(r, target_from(plain_steps(steps@), relationship_id@)),
{
    let mut i: usize = 0;
    assert(plain_steps(steps@).skip(0) =~= plain_steps(steps@));
    while i < steps.len()
        invariant
            i <= steps@.len(),
            target_from(plain_steps(steps@), relationship_id@) == target_from(
                plain_steps(steps@).skip(i as int),
                relationship_id@,
            ),
        decreases steps@.len() - i,
    {
        assert(plain_steps(steps@).skip(i as int).drop_first() =~= plain_steps(steps@).skip(i + 1));
        assert(plain_steps(steps@).skip(i as int)[0] == step_plain(steps@[i as int]));
        match &steps[i] {
            XmlStep::Open { local, attrs } => {
                if same_text(local.as_str(), "Relationship") {
                    let id = match attr_value(attrs, "Id") {
                        Some(v) => v,
                        None => String::new(),
                    };
                    if same_text(id.as_str(), relationship_id) {
                        return match attr_value(attrs, "Target") {
                            Some(t) => Ok(t),
                            None => Err(AppError::ExcelRead("缺少工作表路径".to_owned())),
                        };
                    }
                }
            },
            XmlStep::Eof => {
                return Err(AppError::SheetNotFound);
            },
            XmlStep::Fail { message } => {
                return Err(AppError::ExcelRead(message.clone()));
            },
            _ => {},
        }
        i = i + 1;
    }
    Err(AppError::SheetNotFound)
}

/// Where the relationship `relationship_id` points, read from the relationships
/// part's XML.
pub fn relationship_target(rels_xml: &str, relationship_id: &str) -> (r: Result<String, AppError>)
    ensures
        reports(r, target_from(xml_read(rels_xml@), relationship_id@)),
{
    let steps = xml_steps(rels_xml);
    relationship_target_in(&steps, relationship_id)
}

/// An element marks row `n` hidden: a `row` element whose `hidden` attribute
/// hides it (see `hides`) and whose `r` attribute reads as `n`.
pub open spec fn marks_hidden(local: Seq<char>, attrs: Seq<(Seq<char>, Seq<char>)>, n: int) -> bool {
    &&& local == "row"@
    &&& attr_named(attrs, "hidden"@) matches Some(v) && hides(v)
    &&& attr_named(attrs, "r"@) matches Some(t) && row_number_of(t) == Some(n)
}

/// Row `n` is marked hidden by a step before the end of the text or the first
/// failure.
pub open spec fn hidden_in(steps: Seq<PlainStep>, n: int) -> bool
    decreases steps.len(),
{
    if steps.len() == 0 {
        false
    } else {
        let (kind, local, attrs) = steps[0];
        if kind == 0 {
            marks_hidden(local, attrs, n) || hidden_in(steps.drop_first(), n)
        } else if kind == 3 || kind == 4 {
            false
        } else {
            hidden_in(steps.drop_first(), n)
        }
    }
}

/// `n` is one of the row numbers in `rows`.
pub open spec fn lists_row(rows: Seq<usize>, n: int) -> bool {
    exists|k: int| 0 <= k < rows.len() && rows[k] as int == n
}

fn holds(v: &Vec<usize>, n: usize) -> (r: bool)
    ensures
        r == lists_row(v@, n as int),
{
    let mut i: usize = 0;
    while i < v.len()
        invariant
            i <= v@.len(),
            forall|k: int| 0 <= k < i ==> v@[k] != n,
        decreases v@.len() - i,
    {
        if v[i] == n {
            return true;
        }
        i = i + 1;
    }
    false
}

/// The row that an element marks hidden, if any.
fn marked_row(local: &String, attrs: &Vec<crate::excel::xml_steps::XmlAttr>) -> (r: Option<usize>)
    ensures
        forall|m: int| #[trigger] marks_hidden(local@, attrs_plain(attrs@), m) <==> (r matches Some(n) && n == m),
{
    if !same_text(local.as_str(), "row") {
        return None;
    }
    let hidden = match attr_value(attrs, "hidden") {
        Some(v) => is_hidden_value(v.as_str()),
        None => false,
    };
    if !hidden {
        return None;
    }
    match attr_value(attrs, "r") {
        Some(t) => {
            proof {
                let d = strip_sign(t@, '+');
                if all_digits(d) {
                    lemma_digits_value_grows(d, 0);
                }
            }
            parse_row_number(t.as_str())
        },
        None => None,
    }
}

/// The numbers of the rows that the worksheet's steps mark hidden, each once.
pub fn hidden_rows_in(steps: &Vec<XmlStep>) -> (r: Vec<usize>)
    ensures
        r@.no_duplicates(),
        forall|n: int| #[trigger] hidden_in(plain_steps(steps@), n) <==> lists_row(r@, n),
{
    let mut out: Vec<usize> = Vec::new();
    let mut i: usize = 0;
    assert(plain_steps(steps@).skip(0) =~= plain_steps(steps@));
    while i < steps.len()
        invariant
            i <= steps@.len(),
            out@.no_duplicates(),
            forall|n: int| #[trigger]
                hidden_in(plain_steps(steps@), n) <==> lists_row(out@, n) || hidden_in(plain_steps(steps@).skip(i as int), n),
        decreases steps@.len() - i,
    {
        let ghost rest = plain_steps(steps@).skip(i as int);
        assert(rest.drop_first() =~= plain_steps(steps@).skip(i + 1));
        assert(rest[0] == step_plain(steps@[i as int]));
        match &steps[i] {
            XmlStep::Open { local, attrs } => {
                let found = marked_row(local, attrs);
                let ghost before = out@;
                if let Some(n) = found {
                    if !holds(&out, n) {
                        out.push(n);
                    }
                }
                assert forall|m: int| #[trigger] lists_row(out@, m) <==> lists_row(before, m) || (
                found matches Some(n) && n == m) by {
                    if lists_row(out@, m) {
                        let k = choose|k: int| 0 <= k < out@.len() && out@[k] as int == m;
                        if k < before.len() {
                            assert(before[k] == out@[k]);
                        }
                    }
                    if lists_row(before, m) {
                        let k = choose|k: int| 0 <= k < before.len() && before[k] as int == m;
                        assert(out@[k] == before[k]);
                    }
                    if found is Some && found->0 == m {
                        if !lists_row(before, m) {
                            assert(out@[out@.len() - 1] == found->0);
                        }
                    }
                }
                assert forall|m: int| #[trigger]
                    hidden_in(plain_steps(steps@), m) <==> lists_row(out@, m) || hidden_in(
                        plain_steps(steps@).skip(i + 1),
                        m,
                    ) by {
                    assert(hidden_in(rest, m) == (marks_hidden(local@, attrs_plain(attrs@), m) || hidden_in(
                        rest.drop_first(),
                        m,
                    )));
                }
            },
            XmlStep::Eof => {
                assert forall|m: int| #[trigger] hidden_in(plain_steps(steps@), m) <==> lists_row(out@, m) by {
                    assert(!hidden_in(rest, m));
                }
                return out;
            },
            XmlStep::Fail { .. } => {
                assert forall|m: int| #[trigger] hidden_in(plain_steps(steps@), m) <==> lists_row(out@, m) by {
                    assert(!hidden_in(rest, m));
                }
                return out;
            },
            _ => {
                assert forall|m: int| #[trigger]
                    hidden_in(plain_steps(steps@), m) <==> lists_row(out@, m) || hidden_in(
                        plain_steps(steps@).skip(i + 1),
                        m,
                    ) by {
                    assert(hidden_in(rest, m) == hidden_in(rest.drop_first(), m));
                }
            },
        }
        i = i + 1;
    }
    assert forall|m: int| #[trigger] hidden_in(plain_steps(steps@), m) <==> lists_row(out@, m) by {
        assert(plain_steps(steps@).skip(i as int).len() == 0);
    }
    out
}

/// The numbers of the rows that a worksheet's XML marks hidden, each once.
pub fn parse_hidden_rows(sheet_xml: &str) -> (r: Vec<usize>)
    ensures
        r@.no_duplicates(),
        forall|n: int| #[trigger] hidden_in(xml_read(sheet_xml@), n) <==> lists_row(r@, n),
{
    let steps = xml_steps(sheet_xml);
    hidden_rows_in(&steps)
}

/// Hidden rows are read from the xlsx family of workbooks only: the extension
/// `xlsx`, `xlsm` or `xlsb`, in any ASCII case.
pub open spec fn xlsx_family(ext: Seq<char>) -> bool {
    let e = ext.map_values(|c: char| ascii_lower(c));
    e == "xlsx"@ || e == "xlsm"@ || e == "xlsb"@
}

/// Whether hidden rows are read for a workbook with this file extension (empty
/// where the path has none).
pub fn reads_hidden_rows(extension: &str) -> (r: bool)
    ensures
        r == xlsx_family(extension@),
{
    let cs = chars_of(extension);
    let low = to_ascii_lower_chars(cs.as_slice());
    let l = low.as_slice();
    let xlsx = chars_of("xlsx");
    let xlsm = chars_of("xlsm");
    let xlsb = chars_of("xlsb");
    crate::text::seq_eq(l, xlsx.as_slice()) || crate::text::seq_eq(l, xlsm.as_slice())
        || crate::text::seq_eq(l, xlsb.as_slice())
}

} // verus!
