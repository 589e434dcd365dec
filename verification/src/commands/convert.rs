//! Conversion of confirmed sessions into one workbook shaped like the
//! template: which sessions may be converted, how each row's source is
//! labelled, and where the merged workbook goes.
use vstd::prelude::*;

use crate::domain::import_session::{ImportSession, OutputFile};
use crate::error::AppError;
use crate::excel::reader::ExcelReader;
use crate::mapping::content::eq_ignore_ascii_case;
use crate::paths::{
    extension_of, has_char, joined, last_component, lemma_last_component, names_file, names_no_file,
    path_extension,
    path_file_name, path_file_stem, path_join, plain_name, plain_path, stem_of,
};
use crate::seqs::{first_match, lemma_first_match_at, lemma_first_match_none};
use crate::text::{
    cat, chars_of, clone_strings, contains_seq, rows_view, strings_view, trim, trim_end,
    trim_start, trim_str,
};

verus! {

/// The file name of the merged workbook for a template file stem: the trimmed
/// stem followed by "_合并.xlsx", or "Celled_合并.xlsx" without a usable stem.
pub open spec fn merged_name_of(stem: Option<Seq<char>>) -> Seq<char> {
    match stem {
        Some(s) => if trim(s).len() > 0 {
            trim(s) + "_合并.xlsx"@
        } else {
            "Celled_合并.xlsx"@
        },
        None => "Celled_合并.xlsx"@,
    }
}

/// The merged workbook's file name for a template file that names a file: after
/// the stem of its last component.
pub open spec fn merged_name_for(template_file_name: Seq<char>) -> Seq<char> {
    merged_name_of(Some(stem_of(last_component(template_file_name))))
}

/// Every character of `a` is one of `s`'s.
pub open spec fn chars_within(a: Seq<char>, s: Seq<char>) -> bool {
    forall|c: char| has_char(a, c) ==> has_char(s, c)
}

proof fn lemma_trim_start_within(s: Seq<char>)
    ensures
        chars_within(trim_start(s), s),
    decreases s.len(),
{
    if s.len() > 0 && crate::text::is_white_space(s[0]) {
        lemma_trim_start_within(s.drop_first());
        assert forall|c: char| has_char(trim_start(s), c) implies has_char(s, c) by {
            assert(has_char(s.drop_first(), c));
            let j = choose|j: int| 0 <= j < s.drop_first().len() && s.drop_first()[j] == c;
            assert(s[j + 1] == c);
        }
    }
}

proof fn lemma_trim_end_within(s: Seq<char>)
    ensures
        chars_within(trim_end(s), s),
    decreases s.len(),
{
    if s.len() > 0 && crate::text::is_white_space(s.last()) {
        lemma_trim_end_within(s.drop_last());
        assert forall|c: char| has_char(trim_end(s), c) implies has_char(s, c) by {
            assert(has_char(s.drop_last(), c));
            let j = choose|j: int| 0 <= j < s.drop_last().len() && s.drop_last()[j] == c;
            assert(s[j] == c);
        }
    }
}

/// The default merged file name of a template file that names a file is one
/// plain path component.
proof fn lemma_merged_name_plain(t: Seq<char>)
    requires
        names_file(t),
    ensures
        plain_name(merged_name_for(t)),
{
    let lc = last_component(t);
    lemma_last_component(t);
    let st = stem_of(lc);
    assert(chars_within(st, lc)) by {
        match crate::paths::last_dot(lc) {
            Some(i) => if i > 0 {
                lemma_last_dot_in(lc);
                assert forall|c: char| has_char(st, c) implies has_char(lc, c) by {
                    let k = choose|k: int| 0 <= k < st.len() && st[k] == c;
                    assert(lc[k] == c);
                }
            },
            None => {},
        }
    }
    lemma_trim_start_within(st);
    lemma_trim_end_within(trim_start(st));
    let tr = trim(st);
    reveal_strlit("_合并.xlsx");
    reveal_strlit("Celled_合并.xlsx");
    if tr.len() > 0 {
        let m = tr + "_合并.xlsx"@;
        assert(m == merged_name_for(t));
        assert forall|c: char| c == '/' || c == '\\' || c == ':' implies !has_char(m, c) by {
            if has_char(m, c) {
                let k = choose|k: int| 0 <= k < m.len() && m[k] == c;
                if k < tr.len() {
                    assert(tr[k] == c);
                    assert(has_char(tr, c));
                    assert(has_char(trim_start(st), c));
                    assert(has_char(st, c));
                    assert(has_char(lc, c));
                    assert(has_char(t, c));
                } else {
                    assert("_合并.xlsx"@[k - tr.len()] == c);
                }
            }
        }
    } else {
        assert(merged_name_for(t) == "Celled_合并.xlsx"@);
    }
}

/// Where `last_dot` points, there is a `.` inside the name.
proof fn lemma_last_dot_in(n: Seq<char>)
    ensures
        crate::paths::last_dot(n) matches Some(i) ==> 0 <= i < n.len() && n[i] == '.',
    decreases n.len(),
{
    if n.len() > 0 && n.last() != '.' {
        lemma_last_dot_in(n.drop_last());
    }
}

/// The merged workbook's file name for a template file stem (see `merged_name_of`).
pub fn merged_name_for_stem(stem: Option<&str>) -> (r: String)
    ensures
        r@ == merged_name_of(
            match stem {
                Some(s) => Some(s@),
                None => None,
            },
        ),
{
    match stem {
        Some(s) => {
            let t = trim_str(s);
            if t.unicode_len() > 0 {
                cat(t, "_合并.xlsx")
            } else {
                "Celled_合并.xlsx".to_owned()
            }
        },
        None => "Celled_合并.xlsx".to_owned(),
    }
}

/// The default file name of the merged workbook: named after the template's
/// file stem (see `merged_name_of`). The stem is what `Path::file_stem` gives.
pub fn merged_output_file_name(template_file_name: &str) -> (r: String)
    ensures
        exists|stem: Option<Seq<char>>|
            (stem matches Some(s) ==> contains_seq(template_file_name@, s)) && r@ == merged_name_of(
                stem,
            ),
        names_file(template_file_name@) ==> r@ == merged_name_for(template_file_name@),
{
    match path_file_stem(template_file_name) {
        Some(stem) => {
            let r = merged_name_for_stem(Some(stem.as_str()));
            assert(r@ == merged_name_of(Some(stem@)));
            r
        },
        None => {
            let r = merged_name_for_stem(None);
            assert(r@ == merged_name_of(None));
            r
        },
    }
}

/// The first requested session that is missing or not confirmed.
pub open spec fn first_unready(found: Seq<Option<ImportSession>>) -> Option<int> {
    first_match(found, |s: Option<ImportSession>| s is None || !s.unwrap().confirmed)
}

/// Sessions may be converted only if some are requested, and every requested
/// one exists and is confirmed; `found[i]` is the session the `i`-th requested
/// id names, if any. The first one that fails decides the error.
pub fn check_sessions(found: &Vec<Option<ImportSession>>) -> (r: Result<(), AppError>)
    ensures
        found@.len() == 0 ==> r matches Err(AppError::NotAllConfirmed),
        found@.len() > 0 ==> match first_unready(found@) {
            Some(j) => match found@[j] {
                None => r matches Err(AppError::SessionNotFound),
                Some(_) => r matches Err(AppError::NotAllConfirmed),
            },
            None => r is Ok,
        },
{
    if found.len() == 0 {
        return Err(AppError::NotAllConfirmed);
    }
    let ghost p = |s: Option<ImportSession>| s is None || !s.unwrap().confirmed;
    let mut i: usize = 0;
    while i < found.len()
        invariant
            i <= found@.len(),
            p == (|s: Option<ImportSession>| s is None || !s.unwrap().confirmed),
            forall|q: int| 0 <= q < i ==> !p(found@[q]),
        decreases found@.len() - i,
    {
        match &found[i] {
            None => {
                proof {
                    lemma_first_match_at(found@, p, i as int);
                }
                return Err(AppError::SessionNotFound);
            },
            Some(s) => {
                if !s.confirmed {
                    proof {
                        lemma_first_match_at(found@, p, i as int);
                    }
                    return Err(AppError::NotAllConfirmed);
                }
            },
        }
        i = i + 1;
    }
    proof {
        lemma_first_match_none(found@, p);
    }
    Ok(())
}

/// How many of `names` equal `name`.
pub open spec fn name_count(names: Seq<Seq<char>>, name: Seq<char>) -> nat
    decreases names.len(),
{
    if names.len() == 0 {
        0
    } else {
        name_count(names.drop_last(), name) + if names.last() == name {
            1nat
        } else {
            0nat
        }
    }
}

/// The file names of the sessions.
pub open spec fn session_names(sessions: Seq<ImportSession>) -> Seq<Seq<char>> {
    sessions.map_values(|s: ImportSession| s.file_name@)
}

/// The label of the rows of session `i`: its file path where another session has
/// the same file name, else its file name, else (with an empty file name) the
/// file name of its path, which `Path::file_name` gives: the text after the
/// last `/` of a path that names a file (see `names_file`), and of other paths
/// a piece of the path ("workbook.xlsx" where there is none).
pub open spec fn labelled(sessions: Seq<ImportSession>, i: int, label: Seq<char>) -> bool {
    let s = sessions[i];
    if name_count(session_names(sessions), s.file_name@) > 1 {
        label == s.file_path@
    } else if s.file_name@.len() > 0 {
        label == s.file_name@
    } else if names_file(s.file_path@) {
        label == last_component(s.file_path@)
    } else if names_no_file(s.file_path@) {
        label == "workbook.xlsx"@
    } else {
        label == "workbook.xlsx"@ || contains_seq(s.file_path@, label)
    }
}

fn count_name(sessions: &Vec<ImportSession>, name: &String) -> (r: usize)
    ensures
        r == name_count(session_names(sessions@), name@),
{
    let ghost names = session_names(sessions@);
    let mut n: usize = 0;
    let mut i: usize = 0;
    while i < sessions.len()
        invariant
            i <= sessions@.len(),
            names == session_names(sessions@),
            n == name_count(names.take(i as int), name@),
            n <= i,
        decreases sessions@.len() - i,
    {
        assert(names.take(i + 1).drop_last() =~= names.take(i as int));
        assert(names[i as int] == sessions@[i as int].file_name@);
        if sessions[i].file_name == *name {
            n = n + 1;
        }
        i = i + 1;
    }
    assert(names.take(i as int) =~= names);
    n
}

/// The labels of the sessions' rows, in order (see `labelled`).
pub fn source_labels(sessions: &Vec<ImportSession>) -> (r: Vec<String>)
    ensures
        r@.len() == sessions@.len(),
        forall|i: int| 0 <= i < r@.len() ==> labelled(sessions@, i, #[trigger] r@[i]@),
{
    let mut r: Vec<String> = Vec::new();
    let mut i: usize = 0;
    while i < sessions.len()
        invariant
            i <= sessions@.len(),
            r@.len() == i,
            forall|q: int| 0 <= q < i ==> labelled(sessions@, q, #[trigger] r@[q]@),
        decreases sessions@.len() - i,
    {
        let s = &sessions[i];
        let label = if count_name(sessions, &s.file_name) > 1 {
            s.file_path.clone()
        } else if s.file_name.unicode_len() > 0 {
            s.file_name.clone()
        } else {
            ExcelReader::file_name(s.file_path.as_str())
        };
        r.push(label);
        i = i + 1;
    }
    r
}

/// The rows of a sheet from a 1-based data start row on.
pub fn rows_from(rows: &Vec<Vec<String>>, data_start_row: usize) -> (r: Vec<Vec<String>>)
    ensures
        ({
            let start = if data_start_row >= 1 {
                data_start_row - 1
            } else {
                0
            };
            rows_view(r@) == if start < rows@.len() {
                rows_view(rows@).skip(start)
            } else {
                Seq::empty()
            }
        }),
{
    let start = if data_start_row >= 1 {
        data_start_row - 1
    } else {
        0
    };
    let mut r: Vec<Vec<String>> = Vec::new();
    if start >= rows.len() {
        return r;
    }
    let ghost rv = rows_view(rows@);
    let mut i: usize = start;
    while i < rows.len()
        invariant
            start <= i <= rows@.len(),
            rv == rows_view(rows@),
            rows_view(r@) == rv.subrange(start as int, i as int),
        decreases rows@.len() - i,
    {
        let ghost before = r@;
        let row = clone_strings(&rows[i]);
        assert(strings_view(row@) == rv[i as int]);
        r.push(row);
        assert(rows_view(r@) =~= rows_view(before).push(rv[i as int]));
        assert(rv.subrange(start as int, i + 1) =~= rv.subrange(start as int, i as int).push(rv[i as int]));
        i = i + 1;
    }
    assert(rv.subrange(start as int, i as int) =~= rv.skip(start as int));
    r
}

/// The output path names a directory rather than a workbook: it ends with a
/// path separator, or its extension (as `Path::extension` gives it) is missing
/// or not "xlsx" in any case.
pub open spec fn looks_like_dir(output_path: Seq<char>, extension: Option<Seq<char>>) -> bool {
    ||| output_path.len() > 0 && (output_path.last() == '/' || output_path.last() == '\\')
    ||| match extension {
        Some(e) => !eq_ignore_ascii_case(e, "xlsx"@),
        None => true,
    }
}

fn ends_with_separator(path: &str) -> (r: bool)
    ensures
        r == (path@.len() > 0 && (path@.last() == '/' || path@.last() == '\\')),
{
    let cs = chars_of(path);
    cs.len() > 0 && (cs[cs.len() - 1] == '/' || cs[cs.len() - 1] == '\\')
}

fn is_xlsx(ext: &str) -> (r: bool)
    ensures
        r == eq_ignore_ascii_case(ext@, "xlsx"@),
{
    let cs = chars_of(ext);
    let want = chars_of("xlsx");
    crate::mapping::content::eq_ignore_ascii_case_chars(cs.as_slice(), want.as_slice())
}

/// The output path asks for the merged workbook to go inside it: it ends with
/// `/`, or names a file whose extension makes it look like a directory (see
/// `looks_like_dir`), and it is a directory or does not exist.
pub open spec fn dir_request(output_path: Seq<char>, is_dir: bool, exists: bool) -> bool {
    &&& is_dir || !exists
    &&& (output_path.len() > 0 && output_path.last() == '/') || (names_file(output_path)
        && looks_like_dir(output_path, extension_of(last_component(output_path))))
}

/// Where the merged workbook goes: an output path that looks like a directory
/// (see `looks_like_dir`) and is one, or does not exist, gets the default file
/// name joined to it (see `merged_output_file_name`); any other path is used
/// as it is. `is_dir` and `exists` tell what is on disk at the path.
pub fn resolve_output_path(output_path: &str, template_file_name: &str, is_dir: bool, exists: bool) -> (r:
    String)
    ensures
        exists|ext: Option<Seq<char>>|
            (ext matches Some(e) ==> contains_seq(output_path@, e)) && (!(looks_like_dir(
                output_path@,
                ext,
            ) && (is_dir || !exists)) ==> r@ == output_path@),
        dir_request(output_path@, is_dir, exists) && plain_path(output_path@) && names_file(
            template_file_name@,
        ) ==> joined(output_path@, merged_name_for(template_file_name@), r@),
        names_file(output_path@) && !dir_request(output_path@, is_dir, exists) ==> r@
            == output_path@,
{
    let ext = path_extension(output_path);
    let ghost ev = match &ext {
        Some(e) => Some(e@),
        None => None,
    };
    let dir_like = ends_with_separator(output_path) || match &ext {
        Some(e) => !is_xlsx(e.as_str()),
        None => true,
    };
    assert(dir_like == looks_like_dir(output_path@, ev));
    if dir_like && (is_dir || !exists) {
        let name = merged_output_file_name(template_file_name);
        proof {
            if names_file(template_file_name@) {
                lemma_merged_name_plain(template_file_name@);
            }
        }
        path_join(output_path, name.as_str())
    } else {
        output_path.to_owned()
    }
}

/// The file name of a written workbook's path, or "Celled_合并.xlsx" where
/// `Path::file_name` gives none.
pub fn output_file(path: String) -> (r: OutputFile)
    ensures
        r.session_id@.len() == 0,
        r.path@ == path@,
        r.file_name@ == "Celled_合并.xlsx"@ || contains_seq(path@, r.file_name@),
        names_file(path@) ==> r.file_name@ == last_component(path@),
        names_no_file(path@) ==> r.file_name@ == "Celled_合并.xlsx"@,
{
    let file_name = match path_file_name(path.as_str()) {
        Some(n) => n,
        None => "Celled_合并.xlsx".to_owned(),
    };
    OutputFile { session_id: String::new(), path, file_name }
}

} // verus!
