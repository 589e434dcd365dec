//! Greedy one-to-one assignment of source columns to template columns.
use vstd::prelude::*;

use crate::domain::mapping::{
    mappings_view, HeaderMapping, HeaderMappingView, MappingSource, MatchCandidateView,
};
use crate::seqs::{first_match, is_priority_order, lemma_first_match_at, lemma_first_match_none, rank_order, ranks_before};

verus! {

#[derive(Debug, Clone, Copy, PartialEq, Eq, Structural)]
pub struct Assignment {
    pub source_column_index: usize,
    pub target_column_index: usize,
    /// Score key (see `domain::mapping`).
    pub score: u32,
}

/// Two assignments claim the same source column or the same template column.
pub open spec fn conflicts(a: Assignment, b: Assignment) -> bool {
    a.source_column_index == b.source_column_index || a.target_column_index == b.target_column_index
}

/// Walks `ranked` in order and keeps each assignment that conflicts with none kept before.
pub open spec fn greedy_pick(ranked: Seq<Assignment>) -> Seq<Assignment>
    decreases ranked.len(),
{
    if ranked.len() == 0 {
        Seq::empty()
    } else {
        let kept = greedy_pick(ranked.drop_last());
        if exists|k: int| 0 <= k < kept.len() && conflicts(#[trigger] kept[k], ranked.last()) {
            kept
        } else {
            kept.push(ranked.last())
        }
    }
}

pub open spec fn score_keys(candidates: Seq<Assignment>) -> Seq<u32> {
    candidates.map_values(|a: Assignment| a.score)
}

/// The candidates listed in the order `order` gives.
pub open spec fn in_order(candidates: Seq<Assignment>, order: Seq<usize>) -> Seq<Assignment> {
    order.map_values(|k: usize| candidates[k as int])
}

/// No two assignments share a source column or a template column.
pub open spec fn one_to_one(chosen: Seq<Assignment>) -> bool {
    forall|i: int, j: int|
        0 <= i < j < chosen.len() ==> #[trigger] chosen[i].source_column_index
            != #[trigger] chosen[j].source_column_index && chosen[i].target_column_index
            != chosen[j].target_column_index
}

/// The first assignment for `source`, if any.
pub open spec fn assignment_for(assignments: Seq<Assignment>, source: usize) -> Option<int> {
    first_match(assignments, |a: Assignment| a.source_column_index == source)
}

/// The first candidate for template column `target`, if any.
pub open spec fn candidate_for(candidates: Seq<MatchCandidateView>, target: usize) -> Option<int> {
    first_match(candidates, |c: MatchCandidateView| c.template_column_index == target)
}

/// A mapping once `assignments` are applied: its assignment (the first for its
/// source column) sets the target and, where the target is one of its candidates,
/// that candidate's header and the assignment's score; without one, a mapping that
/// was not set by hand becomes unmatched.
pub open spec fn applied(m: HeaderMappingView, assignments: Seq<Assignment>) -> HeaderMappingView {
    match assignment_for(assignments, m.source_column_index) {
        Some(k) => {
            let a = assignments[k];
            match candidate_for(m.candidates, a.target_column_index) {
                Some(c) => HeaderMappingView {
                    target_column_index: Some(a.target_column_index),
                    target_header: Some(m.candidates[c].template_header),
                    score: Some(a.score),
                    ..m
                },
                None => HeaderMappingView { target_column_index: Some(a.target_column_index), ..m },
            }
        },
        None => if m.source != MappingSource::Manual {
            HeaderMappingView {
                target_column_index: None,
                target_header: None,
                score: None,
                source: MappingSource::Unmatched,
                ..m
            }
        } else {
            m
        },
    }
}

proof fn lemma_greedy_pick_facts(ranked: Seq<Assignment>)
    ensures
        one_to_one(greedy_pick(ranked)),
        forall|k: int|
            0 <= k < greedy_pick(ranked).len() ==> exists|i: int|
                0 <= i < ranked.len() && ranked[i] == #[trigger] greedy_pick(ranked)[k],
        forall|i: int|
            0 <= i < ranked.len() ==> greedy_pick(ranked).contains(#[trigger] ranked[i]) || exists|
                j: int,
            |
                0 <= j < i && greedy_pick(ranked).contains(ranked[j]) && conflicts(
                    ranked[j],
                    ranked[i],
                ),
    decreases ranked.len(),
{
    if ranked.len() > 0 {
        let prev = ranked.drop_last();
        lemma_greedy_pick_facts(prev);
        let kept = greedy_pick(prev);
        let x = ranked.last();
        let n = ranked.len() - 1;
        let g = greedy_pick(ranked);
        assert forall|k: int| 0 <= k < g.len() implies exists|i: int|
            0 <= i < ranked.len() && ranked[i] == #[trigger] g[k] by {
            if k < kept.len() {
                let i = choose|i: int| 0 <= i < prev.len() && prev[i] == kept[k];
                assert(ranked[i] == g[k]);
            } else {
                assert(ranked[n] == g[k]);
            }
        }
        assert forall|i: int| 0 <= i < ranked.len() implies g.contains(#[trigger] ranked[i])
            || exists|j: int|
            0 <= j < i && g.contains(ranked[j]) && conflicts(ranked[j], ranked[i]) by {
            if i < n {
                assert(ranked[i] == prev[i]);
                if kept.contains(prev[i]) {
                    let w = choose|w: int| 0 <= w < kept.len() && kept[w] == prev[i];
                    assert(g[w] == prev[i]);
                } else {
                    let j = choose|j: int|
                        0 <= j < i && kept.contains(prev[j]) && conflicts(prev[j], prev[i]);
                    let w = choose|w: int| 0 <= w < kept.len() && kept[w] == prev[j];
                    assert(g[w] == prev[j]);
                    assert(ranked[j] == prev[j]);
                }
            } else {
                if exists|k: int| 0 <= k < kept.len() && conflicts(#[trigger] kept[k], x) {
                    let k = choose|k: int| 0 <= k < kept.len() && conflicts(#[trigger] kept[k], x);
                    let j = choose|j: int| 0 <= j < prev.len() && prev[j] == kept[k];
                    assert(ranked[j] == prev[j]);
                    assert(g.contains(ranked[j]));
                } else {
                    assert(g[kept.len() as int] == x);
                }
            }
        }
        if !exists|k: int| 0 <= k < kept.len() && conflicts(#[trigger] kept[k], x) {
            assert forall|a: int, b: int| 0 <= a < b < g.len() implies #[trigger] g[a].source_column_index
                != #[trigger] g[b].source_column_index && g[a].target_column_index
                != g[b].target_column_index by {
                if b == kept.len() {
                    assert(!conflicts(kept[a], x));
                }
            }
        }
    }
}

/// The greedy choice keeps no two assignments for one source column or one
/// template column.
pub proof fn greedy_is_one_to_one(candidates: Seq<Assignment>, order: Seq<usize>)
    requires
        is_priority_order(order, score_keys(candidates)),
    ensures
        one_to_one(greedy_pick(in_order(candidates, order))),
{
    lemma_greedy_pick_facts(in_order(candidates, order));
}

/// The greedy choice keeps only candidates, and every candidate it drops clashes
/// with a kept one that scores at least as high.
pub proof fn greedy_is_maximal(candidates: Seq<Assignment>, order: Seq<usize>)
    requires
        is_priority_order(order, score_keys(candidates)),
    ensures
        forall|a: Assignment|
            #[trigger] greedy_pick(in_order(candidates, order)).contains(a) ==> candidates.contains(
                a,
            ),
        forall|i: int|
            0 <= i < candidates.len() ==> greedy_pick(in_order(candidates, order)).contains(
                #[trigger] candidates[i],
            ) || exists|b: Assignment|
                greedy_pick(in_order(candidates, order)).contains(b) && conflicts(b, candidates[i])
                    && b.score >= candidates[i].score,
{
    let ranked = in_order(candidates, order);
    let keys = score_keys(candidates);
    lemma_greedy_pick_facts(ranked);
    let g = greedy_pick(ranked);
    assert forall|a: Assignment| #[trigger] g.contains(a) implies candidates.contains(a) by {
        let k = choose|k: int| 0 <= k < g.len() && g[k] == a;
        let i = choose|i: int| 0 <= i < ranked.len() && ranked[i] == g[k];
        assert(0 <= order[i] < candidates.len());
        assert(candidates[order[i] as int] == a);
    }
    assert forall|c: int| 0 <= c < candidates.len() implies g.contains(#[trigger] candidates[c])
        || exists|b: Assignment| g.contains(b) && conflicts(b, candidates[c]) && b.score
        >= candidates[c].score by {
        assert(crate::seqs::lists(order, c));
        let i = choose|i: int| 0 <= i < order.len() && order[i] == c;
        assert(ranked[i] == candidates[c]);
        if !g.contains(ranked[i]) {
            let j = choose|j: int| 0 <= j < i && g.contains(ranked[j]) && conflicts(ranked[j], ranked[i]);
            assert(ranks_before(keys, order[j] as int, order[i] as int));
            assert(keys[order[j] as int] == candidates[order[j] as int].score);
        }
    }
}

/// One mapping with `assignments` applied (see `applied`).
pub fn applied_one(mapping: &HeaderMapping, assignments: &[Assignment]) -> (r: HeaderMapping)
    ensures
        r@ == applied(mapping@, assignments@),
{
    let mut m = mapping.clone();
    let ghost mv = m@;
    let mut a: usize = 0;
    while a < assignments.len() && assignments[a].source_column_index
        != m.source_column_index
        invariant
            a <= assignments@.len(),
            m@ == mv,
            forall|q: int|
                0 <= q < a ==> assignments@[q].source_column_index != mv.source_column_index,
        decreases assignments@.len() - a,
    {
        a = a + 1;
    }
    if a < assignments.len() {
        let found = assignments[a];
        proof {
            lemma_first_match_at(
                assignments@,
                |x: Assignment| x.source_column_index == mv.source_column_index,
                a as int,
            );
        }
        m.target_column_index = Some(found.target_column_index);
        let mut c: usize = 0;
        while c < m.candidates.len() && m.candidates[c].template_column_index
            != found.target_column_index
            invariant
                c <= m.candidates@.len(),
                mv.candidates == crate::domain::mapping::candidates_view(m.candidates@),
                forall|q: int|
                    0 <= q < c ==> m.candidates@[q].template_column_index
                        != found.target_column_index,
            decreases m.candidates@.len() - c,
        {
            c = c + 1;
        }
        if c < m.candidates.len() {
            proof {
                lemma_first_match_at(
                    mv.candidates,
                    |x: MatchCandidateView| x.template_column_index == found.target_column_index,
                    c as int,
                );
            }
            m.target_header = Some(m.candidates[c].template_header.clone());
            m.score = Some(found.score);
        } else {
            proof {
                lemma_first_match_none(
                    mv.candidates,
                    |x: MatchCandidateView| x.template_column_index == found.target_column_index,
                );
            }
        }
    } else {
        proof {
            lemma_first_match_none(
                assignments@,
                |x: Assignment| x.source_column_index == mv.source_column_index,
            );
        }
        if m.source != MappingSource::Manual {
            m.target_column_index = None;
            m.target_header = None;
            m.score = None;
            m.source = MappingSource::Unmatched;
        }
    }
    m
}

/// Greedy one-to-one assignment. Replaceable later with the Hungarian algorithm.
pub struct AssignmentStrategy;

impl AssignmentStrategy {
    /// Walks the candidates by descending score (ties in their given order) and
    /// keeps each one whose source column and template column are both still free.
    pub fn greedy(candidates: &[Assignment]) -> (chosen: Vec<Assignment>)
        ensures
            exists|order: Seq<usize>|
                is_priority_order(order, score_keys(candidates@)) && chosen@ == greedy_pick(
                    in_order(candidates@, order),
                ),
    {
        let mut keys: Vec<u32> = Vec::new();
        let mut i: usize = 0;
        while i < candidates.len()
            invariant
                i <= candidates@.len(),
                keys@ == score_keys(candidates@).take(i as int),
            decreases candidates@.len() - i,
        {
            keys.push(candidates[i].score);
            i = i + 1;
            assert(keys@ =~= score_keys(candidates@).take(i as int));
        }
        assert(keys@ =~= score_keys(candidates@));
        let order = rank_order(keys.as_slice());
        let ghost ranked = in_order(candidates@, order@);
        let mut chosen: Vec<Assignment> = Vec::new();
        let mut k: usize = 0;
        while k < order.len()
            invariant
                k <= order@.len(),
                is_priority_order(order@, score_keys(candidates@)),
                ranked == in_order(candidates@, order@),
                chosen@ == greedy_pick(ranked.take(k as int)),
            decreases order@.len() - k,
        {
            let item = candidates[order[k]];
            assert(item == ranked[k as int]);
            let mut clash = false;
            let mut m: usize = 0;
            while m < chosen.len()
                invariant
                    m <= chosen@.len(),
                    clash == exists|q: int| 0 <= q < m && conflicts(#[trigger] chosen@[q], item),
                decreases chosen@.len() - m,
            {
                if chosen[m].source_column_index == item.source_column_index
                    || chosen[m].target_column_index == item.target_column_index {
                    clash = true;
                }
                m = m + 1;
            }
            assert(ranked.take(k + 1).drop_last() =~= ranked.take(k as int));
            assert(ranked.take(k + 1).last() == item);
            if !clash {
                chosen.push(item);
            }
            k = k + 1;
        }
        assert(ranked.take(k as int) =~= ranked);
        chosen
    }

    /// Applies `assignments` to every mapping (see `applied`).
    pub fn apply(mappings: &mut Vec<HeaderMapping>, assignments: &[Assignment])
        ensures
            mappings_view(final(mappings)@) == mappings_view(old(mappings)@).map_values(
                |m: HeaderMappingView| applied(m, assignments@),
            ),
    {
        let ghost start = mappings_view(mappings@);
        let mut i: usize = 0;
        while i < mappings.len()
            invariant
                i <= mappings@.len() == start.len(),
                forall|k: int|
                    0 <= k < i ==> (#[trigger] mappings@[k])@ == applied(start[k], assignments@),
                forall|k: int| i <= k < mappings@.len() ==> (#[trigger] mappings@[k])@ == start[k],
            decreases mappings@.len() - i,
        {
            assert(mappings@[i as int]@ == start[i as int]);
            let m = applied_one(&mappings[i], assignments);
            mappings.set(i, m);
            i = i + 1;
        }
        assert(mappings_view(mappings@) =~= start.map_values(
            |m: HeaderMappingView| applied(m, assignments@),
        ));
    }
}

} // verus!
