//! Confirmed mappings remembered from earlier imports.
use vstd::prelude::*;

use crate::domain::mapping::{
    mappings_view, HeaderMapping, HeaderMappingView, MatchCandidate, MatchCandidateView,
    HISTORY_SCORE,
};
use crate::mapping::normalizer::{normalize_header, normalized};
use crate::seqs::{first_match, lemma_first_match_at, lemma_first_match_none};

verus! {

#[derive(Debug)]
pub struct HistoryHit {
    pub target_header: String,
    pub normalized_target_header: String,
    pub usage_count: i64,
}

pub struct HistoryHitView {
    pub target_header: Seq<char>,
    pub normalized_target_header: Seq<char>,
    pub usage_count: i64,
}

impl View for HistoryHit {
    type V = HistoryHitView;

    open spec fn view(&self) -> HistoryHitView {
        HistoryHitView {
            target_header: self.target_header@,
            normalized_target_header: self.normalized_target_header@,
            usage_count: self.usage_count,
        }
    }
}

impl Clone for HistoryHit {
    fn clone(&self) -> (r: Self)
        ensures
            r@ == self@,
    {
        HistoryHit {
            target_header: self.target_header.clone(),
            normalized_target_header: self.normalized_target_header.clone(),
            usage_count: self.usage_count,
        }
    }
}

pub open spec fn hit_view(h: Option<HistoryHit>) -> Option<HistoryHitView> {
    match h {
        Some(x) => Some(x@),
        None => None,
    }
}

/// A store of confirmed mappings, looked up by normalized source header.
pub trait HistoryLookup {
    /// `hit` is what the store holds for the normalized source header `key`:
    /// its most used confirmed target, or none. A store that does not say what
    /// it holds promises nothing of its answers.
    open spec fn finds(&self, key: Seq<char>, hit: Option<HistoryHitView>) -> bool {
        true
    }

    /// The most used confirmed target for `normalized_source`, if any.
    fn find(&self, normalized_source: &str) -> (r: Option<HistoryHit>)
        ensures
            self.finds(normalized_source@, hit_view(r)),
    ;
}

/// Confirmed mappings held in memory, as (normalized source header, hit) pairs.
#[derive(Debug)]
pub struct MemoryHistory {
    pub hits: Vec<(String, HistoryHit)>,
}

/// Among the hits recorded for `source`, the one with the highest usage count;
/// of equal counts the last one, as `Iterator::max_by_key` picks.
pub open spec fn best_hit(hits: Seq<(String, HistoryHit)>, source: Seq<char>) -> Option<
    HistoryHitView,
>
    decreases hits.len(),
{
    if hits.len() == 0 {
        None
    } else {
        let prev = best_hit(hits.drop_last(), source);
        let last = hits.last();
        if last.0@ == source && (prev is None || prev.unwrap().usage_count <= last.1.usage_count) {
            Some(last.1@)
        } else {
            prev
        }
    }
}

/// What the memory store finds for `source` is one of the hits recorded for
/// it, and no hit recorded for it has a higher usage count; of hits with the
/// same highest count it is the last recorded. It finds nothing only where no
/// hit is recorded for it.
pub proof fn best_hit_is_most_used(hits: Seq<(String, HistoryHit)>, source: Seq<char>)
    ensures
        best_hit(hits, source) matches Some(h) ==> exists|i: int|
            0 <= i < hits.len() && (#[trigger] hits[i]).0@ == source && hits[i].1@ == h && forall|
                j: int,
            |
                i < j < hits.len() && (#[trigger] hits[j]).0@ == source ==> hits[j].1.usage_count
                    < h.usage_count,
        best_hit(hits, source) matches Some(h) ==> exists|i: int|
            0 <= i < hits.len() && (#[trigger] hits[i]).0@ == source && hits[i].1@ == h,
        best_hit(hits, source) matches Some(h) ==> forall|i: int|
            0 <= i < hits.len() && (#[trigger] hits[i]).0@ == source ==> hits[i].1.usage_count
                <= h.usage_count,
        best_hit(hits, source) is None ==> forall|i: int|
            0 <= i < hits.len() ==> (#[trigger] hits[i]).0@ != source,
    decreases hits.len(),
{
    if hits.len() > 0 {
        let init = hits.drop_last();
        best_hit_is_most_used(init, source);
        assert forall|i: int| 0 <= i < init.len() implies #[trigger] init[i] == hits[i] by {}
        match best_hit(init, source) {
            Some(p) => {
                let j = choose|j: int| 0 <= j < init.len() && (#[trigger] init[j]).0@ == source && init[j].1@ == p;
                assert(hits[j] == init[j]);
            },
            None => {},
        }
        let n = hits.len() - 1;
        if best_hit(hits, source) is Some {
            let h = best_hit(hits, source).unwrap();
            if hits[n].0@ == source && h == hits[n].1@ {
                assert(hits[n].0@ == source && hits[n].1@ == h && forall|j: int|
                    n < j < hits.len() && (#[trigger] hits[j]).0@ == source ==> hits[j].1.usage_count
                        < h.usage_count);
            } else {
                let p = best_hit(init, source).unwrap();
                assert(h == p);
                let i = choose|i: int|
                    0 <= i < init.len() && (#[trigger] init[i]).0@ == source && init[i].1@ == p && forall|
                        j: int,
                    |
                        i < j < init.len() && (#[trigger] init[j]).0@ == source ==> init[j].1.usage_count
                            < p.usage_count;
                assert(hits[i] == init[i]);
                assert forall|j: int|
                    i < j < hits.len() && (#[trigger] hits[j]).0@ == source implies hits[j].1.usage_count
                    < h.usage_count by {
                    if j < n {
                        assert(init[j] == hits[j]);
                    }
                }
            }
        }
        match best_hit(hits, source) {
            Some(h) => {
                assert forall|i: int|
                    0 <= i < hits.len() && (#[trigger] hits[i]).0@ == source implies hits[i].1.usage_count
                    <= h.usage_count by {
                    if i < n {
                        assert(init[i] == hits[i]);
                        assert(init[i].0@ == source);
                    }
                }
            },
            None => {
                assert forall|i: int| 0 <= i < hits.len() implies (#[trigger] hits[i]).0@ != source by {
                    if i < n {
                        assert(init[i] == hits[i]);
                    }
                }
            },
        }
    }
}

impl Default for MemoryHistory {
    fn default() -> (r: Self)
        ensures
            r.hits@.len() == 0,
    {
        MemoryHistory { hits: Vec::new() }
    }
}

impl HistoryLookup for MemoryHistory {
    open spec fn finds(&self, key: Seq<char>, hit: Option<HistoryHitView>) -> bool {
        hit == best_hit(self.hits@, key)
    }

    fn find(&self, normalized_source: &str) -> (r: Option<HistoryHit>)
        ensures
            hit_view(r) == best_hit(self.hits@, normalized_source@),
    {
        let key = normalized_source.to_owned();
        let mut best: Option<usize> = None;
        let mut i: usize = 0;
        while i < self.hits.len()
            invariant
                i <= self.hits@.len(),
                key@ == normalized_source@,
                match best {
                    Some(b) => b < i && best_hit(self.hits@.take(i as int), key@) == Some(
                        self.hits@[b as int].1@,
                    ),
                    None => best_hit(self.hits@.take(i as int), key@) is None,
                },
            decreases self.hits@.len() - i,
        {
            assert(self.hits@.take(i + 1).drop_last() =~= self.hits@.take(i as int));
            if self.hits[i].0 == key {
                match best {
                    Some(b) => {
                        if self.hits[b].1.usage_count <= self.hits[i].1.usage_count {
                            best = Some(i);
                        }
                    },
                    None => {
                        best = Some(i);
                    },
                }
            }
            i = i + 1;
        }
        assert(self.hits@.take(i as int) =~= self.hits@);
        match best {
            Some(b) => Some(self.hits[b].1.clone()),
            None => None,
        }
    }
}

/// The texts of (index, name, normalized name) column triples.
pub open spec fn triples_view(v: Seq<(usize, String, String)>) -> Seq<(usize, Seq<char>, Seq<char>)> {
    v.map_values(|t: (usize, String, String)| (t.0, t.1@, t.2@))
}

/// The first template column, as (index, name, normalized name), that `hit` names.
pub open spec fn history_column(
    columns: Seq<(usize, Seq<char>, Seq<char>)>,
    hit: HistoryHitView,
) -> Option<int> {
    first_match(
        columns,
        |c: (usize, Seq<char>, Seq<char>)|
            c.2 == hit.normalized_target_header || c.1 == hit.target_header,
    )
}

/// The candidate for the first template column that `hit` names, by normalized
/// or by literal header, with the history score.
pub fn history_candidate(template_columns: &[(usize, String, String)], hit: &HistoryHit) -> (r:
    Option<MatchCandidate>)
    ensures
        match history_column(triples_view(template_columns@), hit@) {
            Some(i) => r matches Some(c) && c@ == (MatchCandidateView {
                template_column_index: template_columns@[i].0,
                template_header: template_columns@[i].1@,
                score: HISTORY_SCORE,
            }),
            None => r is None,
        },
{
    let ghost tv = triples_view(template_columns@);
    let mut i: usize = 0;
    while i < template_columns.len()
        invariant
            i <= template_columns@.len(),
            tv == triples_view(template_columns@),
            forall|k: int|
                0 <= k < i ==> !(template_columns@[k].2@ == hit.normalized_target_header@
                    || template_columns@[k].1@ == hit.target_header@),
        decreases template_columns@.len() - i,
    {
        if template_columns[i].2 == hit.normalized_target_header || template_columns[i].1
            == hit.target_header {
            proof {
                lemma_first_match_at(
                    tv,
                    |c: (usize, Seq<char>, Seq<char>)|
                        c.2 == hit@.normalized_target_header || c.1 == hit@.target_header,
                    i as int,
                );
            }
            return Some(
                MatchCandidate {
                    template_column_index: template_columns[i].0,
                    template_header: template_columns[i].1.clone(),
                    score: HISTORY_SCORE,
                },
            );
        }
        i = i + 1;
    }
    proof {
        lemma_first_match_none(
            tv,
            |c: (usize, Seq<char>, Seq<char>)|
                c.2 == hit@.normalized_target_header || c.1 == hit@.target_header,
        );
    }
    None
}

/// A confirmed mapping as the history stores it.
#[derive(Debug)]
pub struct HistoryRecord {
    pub source_header: String,
    pub normalized_source_header: String,
    pub target_header: String,
    pub normalized_target_header: String,
}

/// The history records of confirmed mappings: one per mapping with a target
/// header, keyed by the normalized source and target headers.
pub open spec fn records_of(mappings: Seq<HeaderMappingView>) -> Seq<(Seq<char>, Seq<char>, Seq<char>, Seq<char>)>
    decreases mappings.len(),
{
    if mappings.len() == 0 {
        Seq::empty()
    } else {
        let prev = records_of(mappings.drop_last());
        let m = mappings.last();
        match m.target_header {
            Some(t) => prev.push((m.source_header, m.normalized_source_header, t, normalized(t))),
            None => prev,
        }
    }
}

pub open spec fn record_view(r: HistoryRecord) -> (Seq<char>, Seq<char>, Seq<char>, Seq<char>) {
    (r.source_header@, r.normalized_source_header@, r.target_header@, r.normalized_target_header@)
}

/// What confirming `mappings` adds to the history (see `records_of`); the store
/// counts a record whose normalized headers it has already seen once more.
pub fn history_records(mappings: &Vec<HeaderMapping>) -> (r: Vec<HistoryRecord>)
    ensures
        r@.map_values(|x: HistoryRecord| record_view(x)) == records_of(mappings_view(mappings@)),
{
    let ghost mv = mappings_view(mappings@);
    let mut r: Vec<HistoryRecord> = Vec::new();
    let mut i: usize = 0;
    while i < mappings.len()
        invariant
            i <= mappings@.len(),
            mv == mappings_view(mappings@),
            r@.map_values(|x: HistoryRecord| record_view(x)) == records_of(mv.take(i as int)),
        decreases mappings@.len() - i,
    {
        let m = &mappings[i];
        assert(mv.take(i + 1).drop_last() =~= mv.take(i as int));
        assert(mv.take(i + 1).last() == m@);
        match &m.target_header {
            Some(t) => {
                let ghost before = r@;
                let rec = HistoryRecord {
                    source_header: m.source_header.clone(),
                    normalized_source_header: m.normalized_source_header.clone(),
                    target_header: t.clone(),
                    normalized_target_header: normalize_header(t.as_str()),
                };
                r.push(rec);
                assert(r@.map_values(|x: HistoryRecord| record_view(x)) =~= before.map_values(
                    |x: HistoryRecord| record_view(x),
                ).push(record_view(rec)));
            },
            None => {},
        }
        i = i + 1;
    }
    assert(mv.take(i as int) =~= mv);
    r
}

} // verus!
