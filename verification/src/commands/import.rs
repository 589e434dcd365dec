//! Import sessions: source columns of a header row, manual mapping edits and
//! the check before a mapping is confirmed.
use vstd::prelude::*;

use crate::domain::import_session::{ImportSession, ImportSessionView, ImportStatus};
use crate::commands::template::{header_index, header_row_cells, usable_header_row};
use crate::domain::mapping::{
    mappings_view, sources_view, HeaderMapping, HeaderMappingView, MappingSource, SourceColumn,
    SourceColumnView,
};
use crate::excel::preview::{column_samples, sample_values};
use crate::excel::reader::SheetData;
use crate::mapping::normalizer::{normalize_header, normalized};
use crate::domain::template::{columns_view, TemplateColumnView, TemplateSchema};
use crate::error::AppError;
use crate::mapping::matcher::{
    conflict_index, conflict_text, distinct_sources, distinct_targets, find_mapping,
    mapping_conflict_message, mapping_for,
};
use crate::text::{cat, rows_view, strings_view, trim, trim_str};
use crate::seqs::{first_match, lemma_first_match_at, lemma_first_match_none, lemma_first_match_props};

verus! {

/// The first template column with index `idx`.
pub open spec fn column_with(cols: Seq<TemplateColumnView>, idx: usize) -> Option<int> {
    first_match(cols, |c: TemplateColumnView| c.index == idx)
}

fn find_column(template: &TemplateSchema, idx: usize) -> (r: Option<usize>)
    ensures
        match r {
            Some(c) => column_with(columns_view(template.columns@), idx) == Some(c as int) && c
                < template.columns@.len(),
            None => column_with(columns_view(template.columns@), idx) is None,
        },
{
    let ghost cols = columns_view(template.columns@);
    let mut c: usize = 0;
    while c < template.columns.len()
        invariant
            c <= template.columns@.len(),
            cols == columns_view(template.columns@),
            forall|q: int| 0 <= q < c ==> cols[q].index != idx,
        decreases template.columns@.len() - c,
    {
        if template.columns[c].index == idx {
            proof {
                lemma_first_match_at(cols, |x: TemplateColumnView| x.index == idx, c as int);
            }
            return Some(c);
        }
        c = c + 1;
    }
    proof {
        lemma_first_match_none(cols, |x: TemplateColumnView| x.index == idx);
    }
    None
}

/// The mappings after source column `src` is mapped by hand to the template
/// column at position `c`.
pub open spec fn mapped_by_hand(
    mappings: Seq<HeaderMappingView>,
    k: int,
    target: usize,
    header: Seq<char>,
) -> Seq<HeaderMappingView> {
    mappings.update(
        k,
        HeaderMappingView {
            target_column_index: Some(target),
            target_header: Some(header),
            source: MappingSource::Manual,
            score: None,
            ..mappings[k]
        },
    )
}

/// The mappings after the mapping at `k` is cleared by hand.
pub open spec fn cleared_by_hand(mappings: Seq<HeaderMappingView>, k: int) -> Seq<HeaderMappingView> {
    mappings.update(
        k,
        HeaderMappingView {
            target_column_index: None,
            target_header: None,
            source: MappingSource::Unmatched,
            score: None,
            ..mappings[k]
        },
    )
}

/// The session with new mappings, to be confirmed again.
pub open spec fn reopened(s: ImportSessionView, mappings: Seq<HeaderMappingView>) -> ImportSessionView {
    ImportSessionView { mappings, confirmed: false, status: ImportStatus::Pending, ..s }
}

impl ImportSession {
    /// A manual edit of the mapping of source column `source_column_index`: to
    /// template column `target_column_index`, or to none. The template column
    /// must exist and must not be mapped from another source column; the source
    /// column must have a mapping. An accepted edit makes the mapping manual (or
    /// unmatched) and the session pending again; a refused one changes nothing.
    pub fn apply_mapping_update(
        &mut self,
        template: &TemplateSchema,
        source_column_index: usize,
        target_column_index: Option<usize>,
    ) -> (r: Result<(), AppError>)
        ensures
            r is Err ==> final(self)@ == old(self)@,
            ({
                let ms = old(self)@.mappings;
                let cols = columns_view(template.columns@);
                match target_column_index {
                    Some(t) => match column_with(cols, t) {
                        None => r matches Err(AppError::InvalidMapping(m)) && m@ == "模板字段不存在"@,
                        Some(c) => match conflict_index(ms, source_column_index, t) {
                            Some(k) => r matches Err(AppError::MappingConflict(m)) && m@
                                == conflict_text(cols[c].name, ms[k].source_header),
                            None => match mapping_for(ms, source_column_index) {
                                None => r matches Err(AppError::InvalidMapping(m)) && m@
                                    == "源字段不存在"@,
                                Some(k) => r is Ok && final(self)@ == reopened(
                                    old(self)@,
                                    mapped_by_hand(ms, k, t, cols[c].name),
                                ),
                            },
                        },
                    },
                    None => match mapping_for(ms, source_column_index) {
                        None => r matches Err(AppError::InvalidMapping(m)) && m@ == "源字段不存在"@,
                        Some(k) => r is Ok && final(self)@ == reopened(
                            old(self)@,
                            cleared_by_hand(ms, k),
                        ),
                    },
                }
            }),
            r is Ok && distinct_sources(old(self)@.mappings) && distinct_targets(old(self)@.mappings)
                ==> distinct_targets(final(self)@.mappings),
    {
        let ghost ms = mappings_view(self.mappings@);
        match target_column_index {
            Some(t) => {
                let c = match find_column(template, t) {
                    Some(c) => c,
                    None => {
                        return Err(AppError::InvalidMapping("模板字段不存在".to_owned()));
                    },
                };
                let name = template.columns[c].name.clone();
                match mapping_conflict_message(self.mappings.as_slice(), source_column_index, t, name.as_str()) {
                    Some(message) => {
                        proof {
                            lemma_first_match_props(
                                ms,
                                |m: HeaderMappingView|
                                    m.source_column_index != source_column_index
                                        && m.target_column_index == Some(t),
                            );
                        }
                        return Err(AppError::MappingConflict(message));
                    },
                    None => {},
                }
                let k = match find_mapping(&self.mappings, source_column_index) {
                    Some(k) => k,
                    None => {
                        return Err(AppError::InvalidMapping("源字段不存在".to_owned()));
                    },
                };
                let mut m = self.mappings[k].clone();
                assert(m@ == ms[k as int]);
                m.target_column_index = Some(t);
                m.target_header = Some(name);
                m.source = MappingSource::Manual;
                m.score = None;
                self.mappings.set(k, m);
                assert(mappings_view(self.mappings@) =~= mapped_by_hand(
                    ms,
                    k as int,
                    t,
                    template.columns@[c as int].name@,
                ));
                proof {
                    let after = mappings_view(self.mappings@);
                    if distinct_sources(ms) && distinct_targets(ms) {
                        lemma_first_match_props(
                            ms,
                            |m: HeaderMappingView|
                                m.source_column_index != source_column_index
                                    && m.target_column_index == Some(t),
                        );
                        assert forall|i: int, j: int|
                            0 <= i < after.len() && 0 <= j < after.len() && i != j && (
                            #[trigger] after[i]).target_column_index is Some implies after[i].target_column_index
                            != (#[trigger] after[j]).target_column_index by {
                            if i == k {
                                if j < k {
                                    assert(ms[j].source_column_index != ms[k as int].source_column_index);
                                } else {
                                    assert(ms[k as int].source_column_index != ms[j].source_column_index);
                                }
                            } else if j == k {
                                if i < k {
                                    assert(ms[i].source_column_index != ms[k as int].source_column_index);
                                } else {
                                    assert(ms[k as int].source_column_index != ms[i].source_column_index);
                                }
                            }
                        }
                    }
                }
            },
            None => {
                let k = match find_mapping(&self.mappings, source_column_index) {
                    Some(k) => k,
                    None => {
                        return Err(AppError::InvalidMapping("源字段不存在".to_owned()));
                    },
                };
                let mut m = self.mappings[k].clone();
                assert(m@ == ms[k as int]);
                m.target_column_index = None;
                m.target_header = None;
                m.source = MappingSource::Unmatched;
                m.score = None;
                self.mappings.set(k, m);
                assert(mappings_view(self.mappings@) =~= cleared_by_hand(ms, k as int));
            },
        }
        self.confirmed = false;
        self.status = ImportStatus::Pending;
        Ok(())
    }
}

/// The mapping at `j` targets a template column that an earlier mapping targets.
pub open spec fn repeats_earlier(mappings: Seq<HeaderMappingView>, j: int) -> bool {
    mappings[j].target_column_index is Some && exists|i: int|
        0 <= i < j && (#[trigger] mappings[i]).target_column_index == mappings[j].target_column_index
}

/// The first mapping that repeats an earlier mapping's target.
pub open spec fn first_repeat(mappings: Seq<HeaderMappingView>) -> Option<int>
    decreases mappings.len(),
{
    if mappings.len() == 0 {
        None
    } else {
        match first_repeat(mappings.drop_last()) {
            Some(j) => Some(j),
            None => if repeats_earlier(mappings, mappings.len() - 1) {
                Some(mappings.len() - 1)
            } else {
                None
            },
        }
    }
}

/// “header” is mapped more than once.
pub open spec fn repeat_text(header: Option<Seq<char>>) -> Seq<char> {
    "“"@ + match header {
        Some(h) => h,
        None => Seq::empty(),
    } + "”存在重复映射"@
}

/// No mapping repeats an earlier target exactly when no two mappings share one.
pub proof fn lemma_first_repeat_distinct(mappings: Seq<HeaderMappingView>)
    ensures
        first_repeat(mappings) is None <==> distinct_targets(mappings),
        first_repeat(mappings) matches Some(j) ==> 0 <= j < mappings.len() && repeats_earlier(
            mappings,
            j,
        ) && forall|q: int| 0 <= q < j ==> !repeats_earlier(mappings, q),
    decreases mappings.len(),
{
    if mappings.len() > 0 {
        let prev = mappings.drop_last();
        let n = mappings.len() - 1;
        lemma_first_repeat_distinct(prev);
        assert forall|j: int| 0 <= j < n implies repeats_earlier(prev, j) == repeats_earlier(mappings, j) by {
            if repeats_earlier(mappings, j) {
                let i = choose|i: int| 0 <= i < j && (#[trigger] mappings[i]).target_column_index
                    == mappings[j].target_column_index;
                assert(prev[i] == mappings[i]);
            }
            if repeats_earlier(prev, j) {
                let i = choose|i: int| 0 <= i < j && (#[trigger] prev[i]).target_column_index
                    == prev[j].target_column_index;
                assert(prev[i] == mappings[i]);
            }
        }
        if first_repeat(mappings) is None {
            assert forall|i: int, j: int|
                0 <= i < mappings.len() && 0 <= j < mappings.len() && i != j && (
                #[trigger] mappings[i]).target_column_index is Some implies mappings[i].target_column_index
                != (#[trigger] mappings[j]).target_column_index by {
                if i < j && j < n {
                    assert(prev[i] == mappings[i] && prev[j] == mappings[j]);
                } else if j < i && i < n {
                    assert(prev[i] == mappings[i] && prev[j] == mappings[j]);
                } else if j == n {
                    if mappings[i].target_column_index == mappings[j].target_column_index {
                        assert(repeats_earlier(mappings, n));
                    }
                } else {
                    if mappings[i].target_column_index == mappings[j].target_column_index {
                        assert(repeats_earlier(mappings, n));
                    }
                }
            }
        } else {
            match first_repeat(prev) {
                Some(j) => {
                    let i = choose|i: int| 0 <= i < j && (#[trigger] mappings[i]).target_column_index
                        == mappings[j].target_column_index;
                    assert(mappings[i].target_column_index is Some);
                },
                None => {
                    let i = choose|i: int| 0 <= i < n && (#[trigger] mappings[i]).target_column_index
                        == mappings[n].target_column_index;
                    assert(mappings[i].target_column_index is Some);
                },
            }
        }
    }
}

/// The check before a mapping is confirmed: no template column may be the
/// target of two mappings; the first mapping that repeats a target is reported.
pub fn check_unique_targets(mappings: &Vec<HeaderMapping>) -> (r: Result<(), AppError>)
    ensures
        match first_repeat(mappings_view(mappings@)) {
            Some(j) => r matches Err(AppError::MappingConflict(m)) && m@ == repeat_text(
                mappings_view(mappings@)[j].target_header,
            ),
            None => r is Ok,
        },
        r is Ok <==> distinct_targets(mappings_view(mappings@)),
{
    let ghost mv = mappings_view(mappings@);
    proof {
        lemma_first_repeat_distinct(mv);
    }
    let mut seen: Vec<usize> = Vec::new();
    let mut j: usize = 0;
    while j < mappings.len()
        invariant
            j <= mappings@.len(),
            mv == mappings_view(mappings@),
            first_repeat(mv.take(j as int)) is None,
            forall|t: usize|
                #[trigger] seen@.contains(t) <==> exists|i: int|
                    0 <= i < j && (#[trigger] mv[i]).target_column_index == Some(t),
        decreases mappings@.len() - j,
    {
        let ghost pre = mv.take(j as int);
        let ghost now = mv.take(j + 1);
        assert(now.drop_last() =~= pre);
        assert forall|q: int| 0 <= q < j implies now[q] == mv[q] by {}
        match mappings[j].target_column_index {
            Some(t) => {
                let mut found = false;
                let mut q: usize = 0;
                while q < seen.len()
                    invariant
                        q <= seen@.len(),
                        found == exists|p: int| 0 <= p < q && seen@[p] == t,
                    decreases seen@.len() - q,
                {
                    if seen[q] == t {
                        found = true;
                    }
                    q = q + 1;
                }
                if found {
                    proof {
                        assert(seen@.contains(t));
                        let i = choose|i: int| 0 <= i < j && (#[trigger] mv[i]).target_column_index == Some(t);
                        assert(now[i].target_column_index == now[j as int].target_column_index);
                        assert(repeats_earlier(now, j as int));
                        assert(first_repeat(now) == Some(j as int));
                        lemma_first_repeat_prefix(mv, j as int + 1);
                    }
                    let header = match &mappings[j].target_header {
                        Some(h) => h.clone(),
                        None => String::new(),
                    };
                    let a = cat("“", header.as_str());
                    return Err(AppError::MappingConflict(cat(a.as_str(), "”存在重复映射")));
                }
                proof {
                    assert forall|i: int| 0 <= i < j implies (#[trigger] now[i]).target_column_index
                        != now[j as int].target_column_index by {
                        assert(now[i] == mv[i]);
                        if mv[i].target_column_index == Some(t) {
                            assert(seen@.contains(t));
                        }
                    }
                    assert(!repeats_earlier(now, j as int));
                }
                let ghost old_seen = seen@;
                seen.push(t);
                proof {
                    assert forall|x: usize| #[trigger] seen@.contains(x) <==> exists|i: int|
                        0 <= i < j + 1 && (#[trigger] mv[i]).target_column_index == Some(x) by {
                        if seen@.contains(x) {
                            if x != t {
                                let p = choose|p: int| 0 <= p < seen@.len() && seen@[p] == x;
                                assert(old_seen[p] == x);
                                assert(old_seen.contains(x));
                            } else {
                                assert(mv[j as int].target_column_index == Some(x));
                            }
                        }
                        if exists|i: int| 0 <= i < j + 1 && (#[trigger] mv[i]).target_column_index == Some(x) {
                            let i = choose|i: int| 0 <= i < j + 1 && (#[trigger] mv[i]).target_column_index == Some(x);
                            if i < j {
                                assert(old_seen.contains(x));
                                let p = choose|p: int| 0 <= p < old_seen.len() && old_seen[p] == x;
                                assert(seen@[p] == x);
                            } else {
                                assert(seen@[old_seen.len() as int] == x);
                            }
                        }
                    }
                }
            },
            None => {
                assert(!repeats_earlier(now, j as int));
                assert forall|x: usize| #[trigger] seen@.contains(x) <==> exists|i: int|
                    0 <= i < j + 1 && (#[trigger] mv[i]).target_column_index == Some(x) by {
                    if exists|i: int| 0 <= i < j + 1 && (#[trigger] mv[i]).target_column_index == Some(x) {
                        let i = choose|i: int| 0 <= i < j + 1 && (#[trigger] mv[i]).target_column_index == Some(x);
                        assert(i < j);
                    }
                }
            },
        }
        j = j + 1;
    }
    assert(mv.take(j as int) =~= mv);
    Ok(())
}

/// A repeat in a prefix is the first repeat of the whole.
proof fn lemma_first_repeat_prefix(mappings: Seq<HeaderMappingView>, n: int)
    requires
        0 <= n <= mappings.len(),
        first_repeat(mappings.take(n)) is Some,
    ensures
        first_repeat(mappings) == first_repeat(mappings.take(n)),
    decreases mappings.len() - n,
{
    if n < mappings.len() {
        let m = mappings.len();
        assert(mappings.take(n) =~= mappings.drop_last().take(n));
        lemma_first_repeat_prefix(mappings.drop_last(), n);
    } else {
        assert(mappings.take(n) =~= mappings);
    }
}

impl ImportSession {
    /// Marks the session confirmed.
    pub fn mark_confirmed(&mut self)
        ensures
            final(self)@ == (ImportSessionView {
                confirmed: true,
                status: ImportStatus::Confirmed,
                ..old(self)@
            }),
    {
        self.confirmed = true;
        self.status = ImportStatus::Confirmed;
    }
}

/// How many sample values a source column keeps.
pub const SAMPLE_LIMIT: usize = 5;

/// At most `limit` values from the front of `values`.
pub open spec fn at_most(values: Seq<Seq<char>>, limit: usize) -> Seq<Seq<char>> {
    if values.len() <= limit {
        values
    } else {
        values.take(limit as int)
    }
}

/// The source columns of a header row: its first `n` cells that are not blank,
/// with their positions, normalized names and samples from the rows below.
pub open spec fn source_columns_of(
    sheet: &SheetData,
    headers: Seq<Seq<char>>,
    header_row: usize,
    visible_only: bool,
    n: int,
) -> Seq<SourceColumnView>
    decreases n,
{
    if n <= 0 {
        Seq::empty()
    } else {
        let prev = source_columns_of(sheet, headers, header_row, visible_only, n - 1);
        let name = headers[n - 1];
        if trim(name).len() > 0 {
            prev.push(
                SourceColumnView {
                    index: (n - 1) as usize,
                    header: name,
                    normalized_header: normalized(name),
                    sample_values: at_most(
                        column_samples(
                            rows_view(sheet.rows@),
                            sheet.hidden_rows@,
                            header_row as int,
                            sheet.rows@.len() as int,
                            n - 1,
                            visible_only,
                        ),
                        SAMPLE_LIMIT,
                    ),
                },
            )
        } else {
            prev
        }
    }
}

/// The source columns of a sheet for a header row (see `source_columns_of`);
/// their data starts on the row below.
pub fn source_columns_at(sheet: &SheetData, header_row: usize, visible_only: bool) -> (r: Result<
    Vec<SourceColumn>,
    AppError,
>)
    ensures
        match r {
            Ok(cols) => header_row < usize::MAX && usable_header_row(sheet, header_row, visible_only) && {
                let h = rows_view(sheet.rows@)[header_index(header_row)];
                sources_view(cols@) == source_columns_of(
                    sheet,
                    h,
                    header_row,
                    visible_only,
                    h.len() as int,
                )
            },
            Err(e) => e is InvalidHeaderRow && (header_row == usize::MAX || !usable_header_row(
                sheet,
                header_row,
                visible_only,
            )),
        },
{
    if header_row == usize::MAX {
        return Err(AppError::InvalidHeaderRow);
    }
    let headers = header_row_cells(sheet, header_row, visible_only)?;
    let ghost hv = strings_view(headers@);
    let data_start_row = header_row + 1;
    let mut cols: Vec<SourceColumn> = Vec::new();
    let mut i: usize = 0;
    while i < headers.len()
        invariant
            i <= headers@.len(),
            hv == strings_view(headers@),
            data_start_row == header_row + 1,
            sources_view(cols@) == source_columns_of(sheet, hv, header_row, visible_only, i as int),
        decreases headers@.len() - i,
    {
        let name = &headers[i];
        assert(hv[i as int] == name@);
        if trim_str(name.as_str()).unicode_len() > 0 {
            let samples = sample_values(sheet, data_start_row, i, SAMPLE_LIMIT, visible_only);
            let ghost before = cols@;
            let column = SourceColumn {
                index: i,
                header: name.clone(),
                normalized_header: normalize_header(name.as_str()),
                sample_values: samples,
            };
            cols.push(column);
            assert(sources_view(cols@) =~= sources_view(before).push(column@));
        }
        i = i + 1;
    }
    Ok(cols)
}

} // verus!
