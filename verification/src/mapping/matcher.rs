//! Header matching. Match order: exact → normalized exact → history → alias →
//! header embedding → first-row content inference. Content never steals a
//! template column already taken by a higher-priority header match.
//!
//! Embedding vectors and similarity scores are floating-point work done by the
//! caller; the steps here take their results as score keys.
use vstd::prelude::*;

use crate::domain::mapping::{
    candidates_view, ZERO_SCORE, mappings_view, sources_view, HeaderMapping, HeaderMappingView,
    MappingSource, MatchCandidate, MatchCandidateView, SourceColumn, SourceColumnView,
    CONTENT_THRESHOLD, EMBEDDING_THRESHOLD, EXACT_SCORE, HISTORY_SCORE, NORMALIZED_EXACT_SCORE,
    UNMATCHED_BAR,
};
use crate::domain::template::{columns_view, TemplateColumnView, TemplateSchema};
use crate::mapping::alias::AliasDictionary;
use crate::mapping::greedy::{
    applied, assignment_for, greedy_is_one_to_one, greedy_pick, in_order, one_to_one, score_keys,
    Assignment, AssignmentStrategy,
};
use crate::mapping::history::{
    hit_view, history_candidate, history_column, triples_view, HistoryHit, HistoryHitView,
    HistoryLookup,
};
use crate::mapping::normalizer::normalized;
use crate::text::{cat, strings_view};
use crate::seqs::{
    first_match, is_priority_order, lemma_first_match_at, lemma_first_match_none,
    lemma_first_match_props, lemma_priority_order_unique, rank_order,
};

verus! {

/// How many candidates a ranking keeps.
pub const TOP_K: usize = 3;

/// A template column as (index, name, normalized name).
pub open spec fn column_triple(c: TemplateColumnView) -> (usize, Seq<char>, Seq<char>) {
    (c.index, c.name, c.normalized_name)
}

/// The template's columns as (index, name, normalized name) triples.
pub fn template_columns(template: &TemplateSchema) -> (r: Vec<(usize, String, String)>)
    ensures
        triples_view(r@) == columns_view(template.columns@).map_values(
            |c: TemplateColumnView| column_triple(c),
        ),
{
    let mut r: Vec<(usize, String, String)> = Vec::new();
    let mut i: usize = 0;
    while i < template.columns.len()
        invariant
            i <= template.columns@.len(),
            r@.len() == i,
            forall|k: int|
                0 <= k < i ==> (#[trigger] r@[k]).0 == template.columns@[k].index && r@[k].1@
                    == template.columns@[k].name@ && r@[k].2@ == template.columns@[k].normalized_name@,
        decreases template.columns@.len() - i,
    {
        let c = &template.columns[i];
        r.push((c.index, c.name.clone(), c.normalized_name.clone()));
        i = i + 1;
    }
    assert(triples_view(r@) =~= columns_view(template.columns@).map_values(
        |c: TemplateColumnView| column_triple(c),
    ));
    r
}

/// The candidate for the first column whose name is `header`, scored as an exact match.
pub open spec fn exact_candidate(header: Seq<char>, cols: Seq<(usize, Seq<char>, Seq<char>)>) -> Option<
    MatchCandidateView,
> {
    match first_match(cols, |c: (usize, Seq<char>, Seq<char>)| c.1 == header) {
        Some(i) => Some(
            MatchCandidateView {
                template_column_index: cols[i].0,
                template_header: cols[i].1,
                score: EXACT_SCORE,
            },
        ),
        None => None,
    }
}

/// The candidate for the first column whose normalized name is `normalized`.
pub open spec fn normalized_candidate(
    normalized_header: Seq<char>,
    cols: Seq<(usize, Seq<char>, Seq<char>)>,
) -> Option<MatchCandidateView> {
    match first_match(cols, |c: (usize, Seq<char>, Seq<char>)| c.2 == normalized_header) {
        Some(i) => Some(
            MatchCandidateView {
                template_column_index: cols[i].0,
                template_header: cols[i].1,
                score: NORMALIZED_EXACT_SCORE,
            },
        ),
        None => None,
    }
}

pub open spec fn opt_candidate_view(c: Option<MatchCandidate>) -> Option<MatchCandidateView> {
    match c {
        Some(x) => Some(x@),
        None => None,
    }
}

pub fn exact_match(header: &str, template_cols: &Vec<(usize, String, String)>) -> (r: Option<
    MatchCandidate,
>)
    ensures
        opt_candidate_view(r) == exact_candidate(header@, triples_view(template_cols@)),
{
    let ghost tv = triples_view(template_cols@);
    let key = header.to_owned();
    let mut i: usize = 0;
    while i < template_cols.len()
        invariant
            i <= template_cols@.len(),
            tv == triples_view(template_cols@),
            key@ == header@,
            forall|k: int| 0 <= k < i ==> tv[k].1 != header@,
        decreases template_cols@.len() - i,
    {
        if template_cols[i].1 == key {
            proof {
                lemma_first_match_at(tv, |c: (usize, Seq<char>, Seq<char>)| c.1 == header@, i as int);
            }
            return Some(
                MatchCandidate {
                    template_column_index: template_cols[i].0,
                    template_header: template_cols[i].1.clone(),
                    score: EXACT_SCORE,
                },
            );
        }
        i = i + 1;
    }
    proof {
        lemma_first_match_none(tv, |c: (usize, Seq<char>, Seq<char>)| c.1 == header@);
    }
    None
}

pub fn normalized_exact_match(normalized_header: &str, template_cols: &Vec<(usize, String, String)>) -> (r:
    Option<MatchCandidate>)
    ensures
        opt_candidate_view(r) == normalized_candidate(normalized_header@, triples_view(template_cols@)),
{
    let ghost tv = triples_view(template_cols@);
    let key = normalized_header.to_owned();
    let mut i: usize = 0;
    while i < template_cols.len()
        invariant
            i <= template_cols@.len(),
            tv == triples_view(template_cols@),
            key@ == normalized_header@,
            forall|k: int| 0 <= k < i ==> tv[k].2 != normalized_header@,
        decreases template_cols@.len() - i,
    {
        if template_cols[i].2 == key {
            proof {
                lemma_first_match_at(
                    tv,
                    |c: (usize, Seq<char>, Seq<char>)| c.2 == normalized_header@,
                    i as int,
                );
            }
            return Some(
                MatchCandidate {
                    template_column_index: template_cols[i].0,
                    template_header: template_cols[i].1.clone(),
                    score: NORMALIZED_EXACT_SCORE,
                },
            );
        }
        i = i + 1;
    }
    proof {
        lemma_first_match_none(tv, |c: (usize, Seq<char>, Seq<char>)| c.2 == normalized_header@);
    }
    None
}

/// Source and candidates that a column gets from its alias: the column of its
/// alias's canonical header, if there is one.
pub open spec fn alias_match(
    s: SourceColumnView,
    cols: Seq<(usize, Seq<char>, Seq<char>)>,
    alias: Map<Seq<char>, Seq<char>>,
) -> (MappingSource, Seq<MatchCandidateView>) {
    let key = normalized(s.normalized_header);
    if alias.contains_key(key) {
        match normalized_candidate(alias[key], cols) {
            Some(c) => (MappingSource::Alias, seq![c]),
            None => (MappingSource::Unmatched, Seq::empty()),
        }
    } else {
        (MappingSource::Unmatched, Seq::empty())
    }
}

/// Source and candidates that a column gets from its header alone, in the
/// match order: an exact match, else a normalized one, else the column that
/// its history hit names, else the column of its alias's canonical header.
#[verifier::opaque]
pub open spec fn header_match(
    s: SourceColumnView,
    cols: Seq<(usize, Seq<char>, Seq<char>)>,
    hit: Option<HistoryHitView>,
    alias: Map<Seq<char>, Seq<char>>,
) -> (MappingSource, Seq<MatchCandidateView>) {
    match exact_candidate(s.header, cols) {
        Some(c) => (MappingSource::Exact, seq![c]),
        None => match normalized_candidate(s.normalized_header, cols) {
            Some(c) => (MappingSource::NormalizedExact, seq![c]),
            None => match hit {
                Some(h) => match history_column(cols, h) {
                    Some(i) => (
                        MappingSource::History,
                        seq![
                            MatchCandidateView {
                                template_column_index: cols[i].0,
                                template_header: cols[i].1,
                                score: HISTORY_SCORE,
                            },
                        ],
                    ),
                    None => alias_match(s, cols, alias),
                },
                None => alias_match(s, cols, alias),
            },
        },
    }
}

/// The mapping a source column starts with: unassigned, with the header-stage
/// source and candidates.
pub open spec fn initial_mapping(
    s: SourceColumnView,
    stage: (MappingSource, Seq<MatchCandidateView>),
) -> HeaderMappingView {
    HeaderMappingView {
        source_column_index: s.index,
        source_header: s.header,
        normalized_source_header: s.normalized_header,
        target_column_index: None,
        target_header: None,
        score: None,
        source: stage.0,
        candidates: stage.1,
    }
}

/// Source-column indexes of the mappings still without a candidate, in order.
pub open spec fn pending_indexes(mappings: Seq<HeaderMappingView>) -> Seq<usize>
    decreases mappings.len(),
{
    if mappings.len() == 0 {
        Seq::empty()
    } else {
        let prev = pending_indexes(mappings.drop_last());
        if mappings.last().candidates.len() == 0 {
            prev.push(mappings.last().source_column_index)
        } else {
            prev
        }
    }
}

/// Matches source headers to template columns.
pub struct HeaderMatcher<'a, H: HistoryLookup> {
    pub template: &'a TemplateSchema,
    pub history: &'a H,
    pub alias: &'a AliasDictionary,
}

impl<'a, H: HistoryLookup> HeaderMatcher<'a, H> {
    /// The header stage for one source column (see `header_match`).
    pub fn header_stage(
        &self,
        source: &SourceColumn,
        cols: &Vec<(usize, String, String)>,
        hit: &Option<HistoryHit>,
    ) -> (r: (MappingSource, Vec<MatchCandidate>))
        ensures
            (r.0, candidates_view(r.1@)) == header_match(
                source@,
                triples_view(cols@),
                hit_view(*hit),
                self.alias@,
            ),
    {
        reveal(header_match);
        let mut candidates: Vec<MatchCandidate> = Vec::new();
        let mut kind = MappingSource::Unmatched;
        match exact_match(source.header.as_str(), cols) {
            Some(c) => {
                kind = MappingSource::Exact;
                candidates.push(c);
            },
            None => match normalized_exact_match(source.normalized_header.as_str(), cols) {
                Some(c) => {
                    kind = MappingSource::NormalizedExact;
                    candidates.push(c);
                },
                None => {
                    let from_history = match hit {
                        Some(hit) => {
                            let found = history_candidate(cols.as_slice(), hit);
                            proof {
                                match history_column(triples_view(cols@), hit@) {
                                    Some(j) => {
                                        assert(0 <= j < cols@.len()) by {
                                            lemma_first_match_props(
                                                triples_view(cols@),
                                                |c: (usize, Seq<char>, Seq<char>)|
                                                    c.2 == hit@.normalized_target_header || c.1
                                                        == hit@.target_header,
                                            );
                                        }
                                        assert(triples_view(cols@)[j] == (
                                            cols@[j].0,
                                            cols@[j].1@,
                                            cols@[j].2@,
                                        ));
                                    },
                                    None => {},
                                }
                            }
                            found
                        },
                        None => None,
                    };
                    match from_history {
                        Some(c) => {
                            kind = MappingSource::History;
                            candidates.push(c);
                        },
                        None => {
                            if let Some(canonical) = self.alias.canonical_for(
                                source.normalized_header.as_str(),
                            ) {
                                if let Some(c) = normalized_exact_match(canonical, cols) {
                                    kind = MappingSource::Alias;
                                    candidates.push(c);
                                }
                            }
                        },
                    }
                },
            },
        }
        proof {
            assert(candidates_view(candidates@) =~= header_match(
                source@,
                triples_view(cols@),
                hit_view(*hit),
                self.alias@,
            ).1);
        }
        (kind, candidates)
    }

    /// What the history store gives for each source column's normalized header.
    pub fn history_hits(&self, sources: &Vec<SourceColumn>) -> (r: Vec<Option<HistoryHit>>)
        ensures
            r@.len() == sources@.len(),
            forall|i: int|
                0 <= i < r@.len() ==> self.history.finds(
                    sources@[i].normalized_header@,
                    hit_view(#[trigger] r@[i]),
                ),
    {
        let mut r: Vec<Option<HistoryHit>> = Vec::new();
        let mut i: usize = 0;
        while i < sources.len()
            invariant
                i <= sources@.len(),
                r@.len() == i,
                forall|k: int|
                    0 <= k < i ==> self.history.finds(
                        sources@[k].normalized_header@,
                        hit_view(#[trigger] r@[k]),
                    ),
            decreases sources@.len() - i,
        {
            r.push(self.history.find(sources[i].normalized_header.as_str()));
            i = i + 1;
        }
        r
    }

    /// The header stage for every source column (see `header_match`), and the
    /// source-column indexes left for the embedding stage. `hits[i]` is what
    /// the history store gives for `sources[i]` (see `history_hits`).
    pub fn match_by_header(&self, sources: &Vec<SourceColumn>, hits: &Vec<Option<HistoryHit>>) -> (r: (
        Vec<HeaderMapping>,
        Vec<usize>,
    ))
        ensures
            r.0@.len() == sources@.len(),
            forall|i: int|
                0 <= i < sources@.len() ==> (#[trigger] r.0@[i])@ == initial_mapping(
                    sources@[i]@,
                    header_match(
                        sources@[i]@,
                        columns_view(self.template.columns@).map_values(
                            |c: TemplateColumnView| column_triple(c),
                        ),
                        hit_at(hits@, i),
                        self.alias@,
                    ),
                ),
            r.1@ == pending_indexes(mappings_view(r.0@)),
    {
        let cols = template_columns(self.template);
        let ghost cv = triples_view(cols@);
        let mut mappings: Vec<HeaderMapping> = Vec::new();
        let mut pending: Vec<usize> = Vec::new();
        let none: Option<HistoryHit> = None;
        let mut i: usize = 0;
        while i < sources.len()
            invariant
                i <= sources@.len(),
                none is None,
                cv == triples_view(cols@),
                cv == columns_view(self.template.columns@).map_values(
                    |c: TemplateColumnView| column_triple(c),
                ),
                mappings@.len() == i,
                forall|k: int|
                    0 <= k < i ==> (#[trigger] mappings@[k])@ == initial_mapping(
                        sources@[k]@,
                        header_match(sources@[k]@, cv, hit_at(hits@, k), self.alias@),
                    ),
                pending@ == pending_indexes(mappings_view(mappings@)),
            decreases sources@.len() - i,
        {
            let source = &sources[i];
            let hit = if i < hits.len() {
                &hits[i]
            } else {
                &none
            };
            assert(hit_view(*hit) == hit_at(hits@, i as int));
            let (kind, candidates) = self.header_stage(source, &cols, hit);
            let empty = candidates.len() == 0;
            let mapping = HeaderMapping {
                source_column_index: source.index,
                source_header: source.header.clone(),
                normalized_source_header: source.normalized_header.clone(),
                target_column_index: None,
                target_header: None,
                score: None,
                source: kind,
                candidates,
            };
            let ghost before = mappings@;
            mappings.push(mapping);
            assert(mappings_view(mappings@).drop_last() =~= mappings_view(before));
            if empty {
                pending.push(source.index);
            }
            i = i + 1;
        }
        (mappings, pending)
    }
}

/// The history hit given for source column `i`, if any.
pub open spec fn hit_at(hits: Seq<Option<HistoryHit>>, i: int) -> Option<HistoryHitView> {
    if 0 <= i < hits.len() {
        hit_view(hits[i])
    } else {
        None
    }
}

/// The scores of candidates.
pub open spec fn candidate_scores(c: Seq<MatchCandidateView>) -> Seq<u32> {
    c.map_values(|x: MatchCandidateView| x.score)
}

/// The candidates by descending score, ties in their given order: what a stable
/// sort by descending score yields.
#[verifier::opaque]
pub open spec fn by_score(c: Seq<MatchCandidateView>) -> Seq<MatchCandidateView> {
    let order = choose|o: Seq<usize>| is_priority_order(o, candidate_scores(c));
    order.map_values(|k: usize| c[k as int])
}

/// The first `TOP_K` candidates by descending score.
pub open spec fn top_candidates(c: Seq<MatchCandidateView>) -> Seq<MatchCandidateView> {
    let r = by_score(c);
    if r.len() <= TOP_K {
        r
    } else {
        r.take(TOP_K as int)
    }
}

/// Every element of `r` is one of `s`.
pub open spec fn drawn_from(r: Seq<MatchCandidateView>, s: Seq<MatchCandidateView>) -> bool {
    forall|i: int| 0 <= i < r.len() ==> #[trigger] s.contains(r[i])
}

/// The best candidates are some of the candidates.
pub proof fn lemma_top_drawn(c: Seq<MatchCandidateView>)
    requires
        c.len() <= usize::MAX,
    ensures
        drawn_from(top_candidates(c), c),
{
    reveal(by_score);
    crate::seqs::lemma_priority_order_exists(candidate_scores(c));
    let o = choose|o: Seq<usize>| is_priority_order(o, candidate_scores(c));
    let r = top_candidates(c);
    assert forall|i: int| 0 <= i < r.len() implies #[trigger] c.contains(r[i]) by {
        assert(0 <= o[i] < c.len());
        assert(r[i] == c[o[i] as int]);
    }
}

/// Keeps the `TOP_K` best of `scored` (see `top_candidates`).
pub fn best_candidates(scored: &Vec<MatchCandidate>) -> (r: Vec<MatchCandidate>)
    ensures
        candidates_view(r@) == top_candidates(candidates_view(scored@)),
        drawn_from(candidates_view(r@), candidates_view(scored@)),
{
    let ghost cv = candidates_view(scored@);
    let mut keys: Vec<u32> = Vec::new();
    let mut i: usize = 0;
    while i < scored.len()
        invariant
            i <= scored@.len(),
            cv == candidates_view(scored@),
            keys@ == candidate_scores(cv).take(i as int),
        decreases scored@.len() - i,
    {
        keys.push(scored[i].score);
        i = i + 1;
        assert(keys@ =~= candidate_scores(cv).take(i as int));
    }
    assert(keys@ =~= candidate_scores(cv));
    let order = rank_order(keys.as_slice());
    proof {
        let o = choose|o: Seq<usize>| is_priority_order(o, candidate_scores(cv));
        crate::seqs::lemma_priority_order_unique(o, order@, candidate_scores(cv));
    }
    let ghost full = by_score(cv);
    assert(full =~= order@.map_values(|k: usize| cv[k as int])) by {
        reveal(by_score);
    }
    let n: usize = if order.len() <= TOP_K {
        order.len()
    } else {
        TOP_K
    };
    let mut r: Vec<MatchCandidate> = Vec::new();
    let mut k: usize = 0;
    while k < n
        invariant
            n <= order@.len() == cv.len() == scored@.len(),
            k <= n,
            cv == candidates_view(scored@),
            full == order@.map_values(|k: usize| cv[k as int]),
            forall|q: int| 0 <= q < order@.len() ==> 0 <= #[trigger] order@[q] < cv.len(),
            candidates_view(r@) == full.take(k as int),
            r@.len() == k,
            forall|q: int| 0 <= q < k ==> (#[trigger] r@[q])@ == scored@[order@[q] as int]@,
        decreases n - k,
    {
        assert(0 <= order@[k as int] < cv.len());
        assert(full[k as int] == cv[order@[k as int] as int]);
        let item = scored[order[k]].clone();
        assert(item@ == full[k as int]);
        let ghost old_r = r@;
        r.push(item);
        assert(candidates_view(r@) =~= candidates_view(old_r).push(item@));
        assert(full.take(k + 1) =~= full.take(k as int).push(full[k as int]));
        k = k + 1;
        assert(candidates_view(r@) =~= full.take(k as int));
    }
    proof {
        assert(full.len() == order@.len());
        if full.len() <= TOP_K {
            assert(full.take(n as int) =~= full);
        }
        let rv = candidates_view(r@);
        assert forall|i: int| 0 <= i < rv.len() implies #[trigger] cv.contains(rv[i]) by {
            let j = order@[i] as int;
            assert(0 <= j < cv.len());
            assert(rv[i] == cv[j]);
        }
        assert(drawn_from(rv, cv));
    }
    r
}

/// The template columns paired with the scores given for them, as candidates.
pub open spec fn scored_columns(cols: Seq<TemplateColumnView>, scores: Seq<u32>) -> Seq<
    MatchCandidateView,
> {
    let n = if cols.len() <= scores.len() {
        cols.len()
    } else {
        scores.len()
    };
    Seq::new(
        n,
        |j: int|
            MatchCandidateView {
                template_column_index: cols[j].index,
                template_header: cols[j].name,
                score: scores[j],
            },
    )
}

/// The `TOP_K` template columns that score highest; `scores[j]` is the score of
/// column `j` (the similarity of a source header to that column's header).
pub fn top_k_candidates(template: &TemplateSchema, scores: &[u32]) -> (r: Vec<MatchCandidate>)
    ensures
        candidates_view(r@) == top_candidates(
            scored_columns(columns_view(template.columns@), scores@),
        ),
{
    let ghost target = scored_columns(columns_view(template.columns@), scores@);
    let n: usize = if template.columns.len() <= scores.len() {
        template.columns.len()
    } else {
        scores.len()
    };
    let mut scored: Vec<MatchCandidate> = Vec::new();
    let mut j: usize = 0;
    while j < n
        invariant
            n == target.len(),
            n <= template.columns@.len(),
            n <= scores@.len(),
            j <= n,
            target == scored_columns(columns_view(template.columns@), scores@),
            candidates_view(scored@) == target.take(j as int),
        decreases n - j,
    {
        let col = &template.columns[j];
        assert(target[j as int] == MatchCandidateView {
            template_column_index: col.index,
            template_header: col.name@,
            score: scores@[j as int],
        });
        let item = MatchCandidate {
            template_column_index: col.index,
            template_header: col.name.clone(),
            score: scores[j],
        };
        let ghost old_s = scored@;
        scored.push(item);
        assert(candidates_view(scored@) =~= candidates_view(old_s).push(target[j as int]));
        assert(target.take(j + 1) =~= target.take(j as int).push(target[j as int]));
        j = j + 1;
        assert(candidates_view(scored@) =~= target.take(j as int));
    }
    assert(target.take(n as int) =~= target);
    best_candidates(&scored)
}

/// The first source column with index `idx`.
pub open spec fn source_with(sources: Seq<SourceColumnView>, idx: usize) -> Option<int> {
    first_match(sources, |s: SourceColumnView| s.index == idx)
}

/// The normalized headers of the source columns that `pending` names, in order;
/// an index that no source column has is skipped.
pub open spec fn pending_texts(sources: Seq<SourceColumnView>, pending: Seq<usize>) -> Seq<Seq<char>>
    decreases pending.len(),
{
    if pending.len() == 0 {
        Seq::empty()
    } else {
        let prev = pending_texts(sources, pending.drop_last());
        match source_with(sources, pending.last()) {
            Some(k) => prev.push(sources[k].normalized_header),
            None => prev,
        }
    }
}

/// The texts whose embeddings the embedding stage compares with the template.
pub fn embedding_texts(sources: &Vec<SourceColumn>, pending: &Vec<usize>) -> (r: Vec<String>)
    ensures
        strings_view(r@) == pending_texts(sources_view(sources@), pending@),
{
    let ghost sv = sources_view(sources@);
    let mut r: Vec<String> = Vec::new();
    let mut p: usize = 0;
    while p < pending.len()
        invariant
            p <= pending@.len(),
            sv == sources_view(sources@),
            strings_view(r@) == pending_texts(sv, pending@.take(p as int)),
        decreases pending@.len() - p,
    {
        let idx = pending[p];
        assert(pending@.take(p + 1).drop_last() =~= pending@.take(p as int));
        let mut k: usize = 0;
        while k < sources.len() && sources[k].index != idx
            invariant
                k <= sources@.len(),
                sv == sources_view(sources@),
                forall|q: int| 0 <= q < k ==> sv[q].index != idx,
            decreases sources@.len() - k,
        {
            k = k + 1;
        }
        if k < sources.len() {
            proof {
                lemma_first_match_at(sv, |s: SourceColumnView| s.index == idx, k as int);
            }
            r.push(sources[k].normalized_header.clone());
        } else {
            proof {
                lemma_first_match_none(sv, |s: SourceColumnView| s.index == idx);
            }
        }
        p = p + 1;
        assert(strings_view(r@) =~= pending_texts(sv, pending@.take(p as int)));
    }
    assert(pending@.take(p as int) =~= pending@);
    r
}

/// The first mapping for source column `idx`.
pub open spec fn mapping_for(mappings: Seq<HeaderMappingView>, idx: usize) -> Option<int> {
    first_match(mappings, |m: HeaderMappingView| m.source_column_index == idx)
}

/// The mappings after the first one for source column `idx` takes `candidates`
/// from the embedding stage.
pub open spec fn with_embedding(
    mappings: Seq<HeaderMappingView>,
    idx: usize,
    candidates: Seq<MatchCandidateView>,
) -> Seq<HeaderMappingView> {
    match mapping_for(mappings, idx) {
        Some(k) => mappings.update(
            k,
            HeaderMappingView { source: MappingSource::Embedding, candidates, ..mappings[k] },
        ),
        None => mappings,
    }
}

/// The mappings after the embedding stage: the `j`-th pending source column takes
/// the best columns by `scores[j]`, for as many as both lists hold.
pub open spec fn embedding_stage(
    mappings: Seq<HeaderMappingView>,
    cols: Seq<TemplateColumnView>,
    pending: Seq<usize>,
    scores: Seq<Seq<u32>>,
    n: int,
) -> Seq<HeaderMappingView>
    decreases n,
{
    if n <= 0 {
        mappings
    } else {
        with_embedding(
            embedding_stage(mappings, cols, pending, scores, n - 1),
            pending[n - 1],
            top_candidates(scored_columns(cols, scores[n - 1])),
        )
    }
}

/// The first index of `mappings` whose source column is `idx`.
pub fn find_mapping(mappings: &Vec<HeaderMapping>, idx: usize) -> (r: Option<usize>)
    ensures
        match r {
            Some(k) => mapping_for(mappings_view(mappings@), idx) == Some(k as int) && k
                < mappings@.len() && mappings@[k as int].source_column_index == idx,
            None => mapping_for(mappings_view(mappings@), idx) is None,
        },
{
    let ghost mv = mappings_view(mappings@);
    let mut k: usize = 0;
    while k < mappings.len()
        invariant
            k <= mappings@.len(),
            mv == mappings_view(mappings@),
            forall|q: int| 0 <= q < k ==> mv[q].source_column_index != idx,
        decreases mappings@.len() - k,
    {
        if mappings[k].source_column_index == idx {
            proof {
                lemma_first_match_at(mv, |m: HeaderMappingView| m.source_column_index == idx, k as int);
            }
            return Some(k);
        }
        k = k + 1;
    }
    proof {
        lemma_first_match_none(mv, |m: HeaderMappingView| m.source_column_index == idx);
    }
    None
}

impl<'a, H: HistoryLookup> HeaderMatcher<'a, H> {
    /// The first mapping for source column `idx` becomes an embedding match with
    /// the best columns by `scores` as candidates.
    pub fn embed_one(&self, mappings: &mut Vec<HeaderMapping>, idx: usize, scores: &[u32])
        ensures
            mappings_view(final(mappings)@) == with_embedding(
                mappings_view(old(mappings)@),
                idx,
                top_candidates(scored_columns(columns_view(self.template.columns@), scores@)),
            ),
    {
        let ghost before = mappings_view(mappings@);
        let ghost top = top_candidates(
            scored_columns(columns_view(self.template.columns@), scores@),
        );
        let candidates = top_k_candidates(self.template, scores);
        match find_mapping(mappings, idx) {
            Some(k) => {
                let mut m = mappings[k].clone();
                assert(m@ == before[k as int]);
                m.source = MappingSource::Embedding;
                m.candidates = candidates;
                assert(m@ == HeaderMappingView {
                    source: MappingSource::Embedding,
                    candidates: top,
                    ..before[k as int]
                });
                mappings.set(k, m);
                assert(mappings_view(mappings@) =~= before.update(k as int, m@));
            },
            None => {},
        }
    }

    /// The embedding stage: `scores[j][c]` is the similarity of the `j`-th pending
    /// source header to template column `c`; each pending mapping becomes an
    /// embedding match with its best columns as candidates.
    pub fn apply_embedding_scores(
        &self,
        mappings: &mut Vec<HeaderMapping>,
        pending: &Vec<usize>,
        scores: &Vec<Vec<u32>>,
    )
        ensures
            mappings_view(final(mappings)@) == embedding_stage(
                mappings_view(old(mappings)@),
                columns_view(self.template.columns@),
                pending@,
                scores@.map_values(|v: Vec<u32>| v@),
                if pending@.len() <= scores@.len() {
                    pending@.len() as int
                } else {
                    scores@.len() as int
                },
            ),
    {
        let ghost start = mappings_view(mappings@);
        let ghost cols = columns_view(self.template.columns@);
        let ghost sv = scores@.map_values(|v: Vec<u32>| v@);
        let n: usize = if pending.len() <= scores.len() {
            pending.len()
        } else {
            scores.len()
        };
        let mut j: usize = 0;
        while j < n
            invariant
                n <= pending@.len(),
                n <= scores@.len(),
                j <= n,
                cols == columns_view(self.template.columns@),
                sv == scores@.map_values(|v: Vec<u32>| v@),
                mappings_view(mappings@) == embedding_stage(start, cols, pending@, sv, j as int),
            decreases n - j,
        {
            let ghost before = mappings_view(mappings@);
            assert(sv[j as int] == scores@[j as int]@);
            self.embed_one(mappings, pending[j], scores[j].as_slice());
            j = j + 1;
        }
    }
}

/// Lowest score that a candidate of a mapping with this source must reach to
/// be assigned.
pub open spec fn threshold_of(source: MappingSource) -> u32 {
    match source {
        MappingSource::Embedding => EMBEDDING_THRESHOLD,
        MappingSource::Content => CONTENT_THRESHOLD,
        MappingSource::Unmatched => UNMATCHED_BAR,
        _ => ZERO_SCORE,
    }
}

fn threshold(source: MappingSource) -> (r: u32)
    ensures
        r == threshold_of(source),
{
    match source {
        MappingSource::Embedding => EMBEDDING_THRESHOLD,
        MappingSource::Content => CONTENT_THRESHOLD,
        MappingSource::Unmatched => UNMATCHED_BAR,
        _ => ZERO_SCORE,
    }
}

/// What a mapping proposes: its first candidate, where that reaches the threshold.
pub open spec fn proposal(m: HeaderMappingView) -> Option<Assignment> {
    if m.candidates.len() > 0 && m.candidates[0].score >= threshold_of(m.source) {
        Some(
            Assignment {
                source_column_index: m.source_column_index,
                target_column_index: m.candidates[0].template_column_index,
                score: m.candidates[0].score,
            },
        )
    } else {
        None
    }
}

/// The proposals of the mappings, in order.
pub open spec fn proposals(mappings: Seq<HeaderMappingView>) -> Seq<Assignment>
    decreases mappings.len(),
{
    if mappings.len() == 0 {
        Seq::empty()
    } else {
        let prev = proposals(mappings.drop_last());
        match proposal(mappings.last()) {
            Some(a) => prev.push(a),
            None => prev,
        }
    }
}

pub fn header_assignments(mappings: &Vec<HeaderMapping>) -> (r: Vec<Assignment>)
    ensures
        r@ == proposals(mappings_view(mappings@)),
{
    let ghost mv = mappings_view(mappings@);
    let mut r: Vec<Assignment> = Vec::new();
    let mut i: usize = 0;
    while i < mappings.len()
        invariant
            i <= mappings@.len(),
            mv == mappings_view(mappings@),
            r@ == proposals(mv.take(i as int)),
        decreases mappings@.len() - i,
    {
        let m = &mappings[i];
        assert(mv.take(i + 1).drop_last() =~= mv.take(i as int));
        assert(mv.take(i + 1).last() == m@);
        if m.candidates.len() > 0 && m.candidates[0].score >= threshold(m.source) {
            r.push(
                Assignment {
                    source_column_index: m.source_column_index,
                    target_column_index: m.candidates[0].template_column_index,
                    score: m.candidates[0].score,
                },
            );
        }
        i = i + 1;
    }
    assert(mv.take(i as int) =~= mv);
    r
}

/// No two mappings are for the same source column.
pub open spec fn distinct_sources(mappings: Seq<HeaderMappingView>) -> bool {
    forall|i: int, j: int|
        0 <= i < j < mappings.len() ==> #[trigger] mappings[i].source_column_index
            != #[trigger] mappings[j].source_column_index
}

/// No two mappings target the same template column.
pub open spec fn distinct_targets(mappings: Seq<HeaderMappingView>) -> bool {
    forall|i: int, j: int|
        0 <= i < mappings.len() && 0 <= j < mappings.len() && i != j && (
        #[trigger] mappings[i]).target_column_index is Some ==> mappings[i].target_column_index
            != (#[trigger] mappings[j]).target_column_index
}

/// No mapping has a target yet.
pub open spec fn no_targets(mappings: Seq<HeaderMappingView>) -> bool {
    forall|i: int| 0 <= i < mappings.len() ==> (#[trigger] mappings[i]).target_column_index is None
}

/// The mappings after the greedy choice among their proposals is applied.
pub open spec fn header_assigned(mappings: Seq<HeaderMappingView>) -> Seq<HeaderMappingView> {
    let props = proposals(mappings);
    let order = choose|o: Seq<usize>| is_priority_order(o, score_keys(props));
    mappings.map_values(|m: HeaderMappingView| applied(m, greedy_pick(in_order(props, order))))
}

/// Applying a one-to-one choice to mappings for distinct source columns, none of
/// which had a target, leaves no two mappings on one template column.
pub proof fn lemma_applied_distinct(mappings: Seq<HeaderMappingView>, chosen: Seq<Assignment>)
    requires
        distinct_sources(mappings),
        no_targets(mappings),
        one_to_one(chosen),
    ensures
        distinct_targets(mappings.map_values(|m: HeaderMappingView| applied(m, chosen))),
{
    let after = mappings.map_values(|m: HeaderMappingView| applied(m, chosen));
    assert forall|i: int, j: int|
        0 <= i < after.len() && 0 <= j < after.len() && i != j && (
        #[trigger] after[i]).target_column_index is Some implies after[i].target_column_index
        != (#[trigger] after[j]).target_column_index by {
        let si = mappings[i].source_column_index;
        let sj = mappings[j].source_column_index;
        let pi = |a: Assignment| a.source_column_index == si;
        let pj = |a: Assignment| a.source_column_index == sj;
        lemma_first_match_props(chosen, pi);
        lemma_first_match_props(chosen, pj);
        if after[j].target_column_index == after[i].target_column_index {
            let ki = assignment_for(chosen, si).unwrap();
            let kj = assignment_for(chosen, sj).unwrap();
            assert(chosen[ki].target_column_index == chosen[kj].target_column_index);
            if ki < kj {
                assert(chosen[ki].target_column_index != chosen[kj].target_column_index);
            } else if kj < ki {
                assert(chosen[kj].target_column_index != chosen[ki].target_column_index);
            }
            if i < j {
                assert(mappings[i].source_column_index != mappings[j].source_column_index);
            } else {
                assert(mappings[j].source_column_index != mappings[i].source_column_index);
            }
        }
    }
}

/// Proposes each mapping's first candidate where it reaches the threshold of its
/// source, keeps a one-to-one choice by descending score, and applies it.
pub fn assign_header_matches(mappings: &mut Vec<HeaderMapping>)
    ensures
        mappings_view(final(mappings)@) == header_assigned(mappings_view(old(mappings)@)),
        distinct_sources(mappings_view(old(mappings)@)) && no_targets(mappings_view(old(mappings)@))
            ==> distinct_targets(mappings_view(final(mappings)@)),
{
    let ghost start = mappings_view(mappings@);
    let proposed = header_assignments(mappings);
    let chosen = AssignmentStrategy::greedy(proposed.as_slice());
    proof {
        let props = proposals(start);
        let o1 = choose|o: Seq<usize>|
            is_priority_order(o, score_keys(props)) && chosen@ == greedy_pick(in_order(props, o));
        let o2 = choose|o: Seq<usize>| is_priority_order(o, score_keys(props));
        lemma_priority_order_unique(o1, o2, score_keys(props));
        greedy_is_one_to_one(props, o1);
    }
    AssignmentStrategy::apply(mappings, chosen.as_slice());
    proof {
        if distinct_sources(start) && no_targets(start) {
            lemma_applied_distinct(start, chosen@);
        }
    }
}

/// The first mapping, for another source column, that already targets `target`.
pub open spec fn conflict_index(mappings: Seq<HeaderMappingView>, source: usize, target: usize) -> Option<
    int,
> {
    first_match(
        mappings,
        |m: HeaderMappingView| m.source_column_index != source && m.target_column_index == Some(target),
    )
}

/// “target” is already mapped to “source”.
pub open spec fn conflict_text(target_header: Seq<char>, source_header: Seq<char>) -> Seq<char> {
    "“"@ + target_header + "”已映射给“"@ + source_header + "”"@
}

/// The message for mapping source column `source_column_index` to a template
/// column that another source column already has (see `conflict_index`).
pub fn mapping_conflict_message(
    mappings: &[HeaderMapping],
    source_column_index: usize,
    target_column_index: usize,
    target_header: &str,
) -> (r: Option<String>)
    ensures
        match conflict_index(mappings_view(mappings@), source_column_index, target_column_index) {
            Some(k) => r matches Some(m) && m@ == conflict_text(
                target_header@,
                mappings@[k].source_header@,
            ),
            None => r is None,
        },
{
    let ghost mv = mappings_view(mappings@);
    let ghost p = |m: HeaderMappingView|
        m.source_column_index != source_column_index && m.target_column_index == Some(
            target_column_index,
        );
    let mut k: usize = 0;
    while k < mappings.len()
        invariant
            k <= mappings@.len(),
            mv == mappings_view(mappings@),
            p == (|m: HeaderMappingView|
                m.source_column_index != source_column_index && m.target_column_index == Some(
                    target_column_index,
                )),
            forall|q: int| 0 <= q < k ==> !p(mv[q]),
        decreases mappings@.len() - k,
    {
        let m = &mappings[k];
        if m.source_column_index != source_column_index && m.target_column_index == Some(
            target_column_index,
        ) {
            proof {
                lemma_first_match_at(mv, p, k as int);
            }
            let a = cat("“", target_header);
            let b = cat(a.as_str(), "”已映射给“");
            let c = cat(b.as_str(), m.source_header.as_str());
            return Some(cat(c.as_str(), "”"));
        }
        k = k + 1;
    }
    proof {
        lemma_first_match_none(mv, p);
    }
    None
}

} // verus!
