//! Writing converted workbooks: the sheet's name and rows. Style preservation
//! is out of scope.
use vstd::prelude::*;

use crate::domain::template::{columns_view, TemplateColumnView, TemplateSchema};
use crate::text::{chars_of, rows_view, string_of, strings_view, trim, trim_chars};

verus! {

/// Characters that a worksheet name may not hold.
pub open spec fn forbidden_in_sheet_name(c: char) -> bool {
    c == ':' || c == '\\' || c == '/' || c == '?' || c == '*' || c == '[' || c == ']'
}

/// The longest worksheet name, in characters.
pub const SHEET_NAME_MAX: usize = 31;

/// A usable worksheet name: forbidden characters become spaces, the result is
/// trimmed, cut to 31 characters, and "Sheet1" where nothing is left.
pub open spec fn sanitized(name: Seq<char>) -> Seq<char> {
    let cleaned = name.map_values(|c: char| if forbidden_in_sheet_name(c) { ' ' } else { c });
    let t = trim(cleaned);
    if t.len() == 0 {
        "Sheet1"@
    } else if t.len() <= SHEET_NAME_MAX {
        t
    } else {
        t.take(SHEET_NAME_MAX as int)
    }
}

/// A sanitized worksheet name holds none of `: \\ / ? * [ ]`, is never empty
/// and is at most 31 characters long.
pub proof fn sanitized_name_is_usable(name: Seq<char>)
    ensures
        forall|k: int|
            0 <= k < sanitized(name).len() ==> {
                let c = #[trigger] sanitized(name)[k];
                c != ':' && c != '\\' && c != '/' && c != '?' && c != '*' && c != '[' && c != ']'
            },
        0 < sanitized(name).len() <= 31,
{
    let f = |c: char| c != ':' && c != '\\' && c != '/' && c != '?' && c != '*' && c != '[' && c != ']';
    let cleaned = name.map_values(|c: char| if forbidden_in_sheet_name(c) { ' ' } else { c });
    assert(crate::mapping::normalizer::all_sat(cleaned, f));
    crate::mapping::normalizer::lemma_trim_sat(cleaned, f);
    let t = trim(cleaned);
    reveal_strlit("Sheet1");
    if t.len() > SHEET_NAME_MAX {
        assert forall|k: int| 0 <= k < t.take(31).len() implies f(#[trigger] t.take(31)[k]) by {
            assert(t.take(31)[k] == t[k]);
        }
    }
    assert(crate::mapping::normalizer::all_sat(sanitized(name), f));
}

/// Each forbidden character becomes a space: a name with one of `: \\ / ? * [ ]`
/// sanitizes as the same name with a space in its place. A name that holds
/// none of them, has no white space at either end and at most 31 characters
/// is kept as it is.
pub proof fn sanitized_replaces_with_spaces(a: Seq<char>, c: char, b: Seq<char>, name: Seq<char>)
    ensures
        (c == ':' || c == '\\' || c == '/' || c == '?' || c == '*' || c == '[' || c == ']') ==> sanitized(
            a + seq![c] + b,
        ) == sanitized(a + seq![' '] + b),
        (forall|k: int|
            0 <= k < name.len() ==> {
                let d = #[trigger] name[k];
                d != ':' && d != '\\' && d != '/' && d != '?' && d != '*' && d != '[' && d != ']'
            }) && 0 < name.len() <= 31 && !crate::text::is_white_space(name[0])
            && !crate::text::is_white_space(name.last()) ==> sanitized(name) == name,
{
    let f = |d: char| if forbidden_in_sheet_name(d) { ' ' } else { d };
    if c == ':' || c == '\\' || c == '/' || c == '?' || c == '*' || c == '[' || c == ']' {
        assert((a + seq![c] + b).map_values(f) =~= (a + seq![' '] + b).map_values(f));
    }
    if (forall|k: int|
        0 <= k < name.len() ==> {
            let d = #[trigger] name[k];
            d != ':' && d != '\\' && d != '/' && d != '?' && d != '*' && d != '[' && d != ']'
        }) && 0 < name.len() <= 31 && !crate::text::is_white_space(name[0])
        && !crate::text::is_white_space(name.last()) {
        let cleaned = name.map_values(f);
        assert(cleaned =~= name);
        assert(crate::text::trim_start(name) == name);
        assert(crate::text::trim_end(name) == name);
    }
}

pub fn sanitize_sheet_name(name: &str) -> (r: String)
    ensures
        r@ == sanitized(name@),
{
    let cs = chars_of(name);
    let mut cleaned: Vec<char> = Vec::new();
    let mut i: usize = 0;
    while i < cs.len()
        invariant
            i <= cs@.len(),
            cleaned@ == cs@.take(i as int).map_values(
                |c: char| if forbidden_in_sheet_name(c) { ' ' } else { c },
            ),
        decreases cs@.len() - i,
    {
        let c = cs[i];
        let d = if c == ':' || c == '\\' || c == '/' || c == '?' || c == '*' || c == '[' || c
            == ']' {
            ' '
        } else {
            c
        };
        cleaned.push(d);
        i = i + 1;
        assert(cleaned@ =~= cs@.take(i as int).map_values(
            |c: char| if forbidden_in_sheet_name(c) { ' ' } else { c },
        ));
    }
    assert(cs@.take(i as int) =~= cs@);
    let t = trim_chars(cleaned.as_slice());
    if t.len() == 0 {
        return "Sheet1".to_owned();
    }
    if t.len() <= SHEET_NAME_MAX {
        return string_of(t.as_slice());
    }
    let mut cut: Vec<char> = Vec::new();
    let mut k: usize = 0;
    while k < SHEET_NAME_MAX
        invariant
            k <= SHEET_NAME_MAX < t@.len(),
            cut@ == t@.take(k as int),
        decreases SHEET_NAME_MAX - k,
    {
        cut.push(t[k]);
        k = k + 1;
        assert(cut@ =~= t@.take(k as int));
    }
    string_of(cut.as_slice())
}

/// Writes converted workbooks.
pub struct ExcelWriter;

impl ExcelWriter {
    /// The rows of the written sheet: the template's column names, then the data rows.
    pub fn sheet_rows(template: &TemplateSchema, data_rows: &Vec<Vec<String>>) -> (r: Vec<Vec<String>>)
        ensures
            r@.len() == data_rows@.len() + 1,
            strings_view(r@[0]@) == columns_view(template.columns@).map_values(|c: TemplateColumnView| c.name),
            forall|i: int| 0 <= i < data_rows@.len() ==> strings_view(#[trigger] r@[i + 1]@) == strings_view(data_rows@[i]@),
    {
        let ghost want = columns_view(template.columns@).map_values(|c: TemplateColumnView| c.name);
        let mut names: Vec<String> = Vec::new();
        let mut c: usize = 0;
        while c < template.columns.len()
            invariant
                c <= template.columns@.len(),
                want == columns_view(template.columns@).map_values(|c: TemplateColumnView| c.name),
                strings_view(names@) == want.take(c as int),
            decreases template.columns@.len() - c,
        {
            let ghost before = names@;
            names.push(template.columns[c].name.clone());
            assert(want[c as int] == template.columns@[c as int].name@);
            assert(strings_view(names@) =~= strings_view(before).push(want[c as int]));
            c = c + 1;
            assert(want.take(c as int) =~= want.take(c - 1).push(want[c - 1]));
        }
        assert(want.take(c as int) =~= want);
        let mut r: Vec<Vec<String>> = Vec::new();
        r.push(names);
        let mut i: usize = 0;
        while i < data_rows.len()
            invariant
                i <= data_rows@.len(),
                r@.len() == i + 1,
                strings_view(r@[0]@) == columns_view(template.columns@).map_values(|c: TemplateColumnView| c.name),
                forall|q: int| 0 <= q < i ==> strings_view(#[trigger] r@[q + 1]@) == strings_view(data_rows@[q]@),
            decreases data_rows@.len() - i,
        {
            r.push(crate::text::clone_strings(&data_rows[i]));
            i = i + 1;
        }
        r
    }
}

} // verus!
