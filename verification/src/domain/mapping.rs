//! Header mapping records.
//!
//! A match score is held as the order key of its 32-bit floating-point value:
//! the key of a non-negative score `x` is the bit pattern of `x` with the top bit
//! set, that of a negative one the complement of its bit pattern. Keys compare
//! as the scores do, so every ranking and threshold works on the keys.
use vstd::prelude::*;

use crate::text::{clone_strings, opt_view, strings_view};

verus! {

/// Score key of a match on the very header text (score 1.0).
pub const EXACT_SCORE: u32 = 0xbf80_0000;

/// Score key of a match on the normalized header (score 0.99).
pub const NORMALIZED_EXACT_SCORE: u32 = 0xbf7d_70a4;

/// Score key of a match that a confirmed mapping remembered (score 0.97).
pub const HISTORY_SCORE: u32 = 0xbf78_51ec;

/// Score key below which a header-embedding candidate is not assigned (score 0.52).
pub const EMBEDDING_THRESHOLD: u32 = 0xbf05_1eb8;

/// Score key below which a content candidate is not assigned (score 0.55).
pub const CONTENT_THRESHOLD: u32 = 0xbf0c_cccd;

/// Score key of a content type token found verbatim in a header (score 0.93).
pub const TOKEN_SUBSTRING_SCORE: u32 = 0xbf6e_147b;

/// Score key of a zero score.
pub const ZERO_SCORE: u32 = 0x8000_0000;

/// Score key of the largest finite score, a bar that no candidate of an
/// unmatched column clears.
pub const UNMATCHED_BAR: u32 = 0xff7f_ffff;

#[derive(Debug, Clone, Copy, PartialEq, Eq, Structural)]
pub enum MappingSource {
    Exact,
    NormalizedExact,
    History,
    Alias,
    Embedding,
    Content,
    Manual,
    Unmatched,
}

#[derive(Debug)]
pub struct MatchCandidate {
    pub template_column_index: usize,
    pub template_header: String,
    pub score: u32,
}

pub struct MatchCandidateView {
    pub template_column_index: usize,
    pub template_header: Seq<char>,
    pub score: u32,
}

impl View for MatchCandidate {
    type V = MatchCandidateView;

    open spec fn view(&self) -> MatchCandidateView {
        MatchCandidateView {
            template_column_index: self.template_column_index,
            template_header: self.template_header@,
            score: self.score,
        }
    }
}

pub open spec fn candidates_view(v: Seq<MatchCandidate>) -> Seq<MatchCandidateView> {
    v.map_values(|c: MatchCandidate| c@)
}

impl Clone for MatchCandidate {
    fn clone(&self) -> (r: Self)
        ensures
            r@ == self@,
    {
        MatchCandidate {
            template_column_index: self.template_column_index,
            template_header: self.template_header.clone(),
            score: self.score,
        }
    }
}

pub fn clone_candidates(v: &Vec<MatchCandidate>) -> (r: Vec<MatchCandidate>)
    ensures
        candidates_view(r@) == candidates_view(v@),
{
    let mut r: Vec<MatchCandidate> = Vec::new();
    let mut i: usize = 0;
    while i < v.len()
        invariant
            i <= v@.len(),
            r@.len() == i,
            forall|k: int| 0 <= k < i ==> (#[trigger] r@[k])@ == v@[k]@,
        decreases v@.len() - i,
    {
        r.push(v[i].clone());
        i = i + 1;
    }
    assert(candidates_view(r@) =~= candidates_view(v@));
    r
}

#[derive(Debug)]
pub struct HeaderMapping {
    pub source_column_index: usize,
    pub source_header: String,
    pub normalized_source_header: String,
    pub target_column_index: Option<usize>,
    pub target_header: Option<String>,
    pub score: Option<u32>,
    pub source: MappingSource,
    pub candidates: Vec<MatchCandidate>,
}

pub struct HeaderMappingView {
    pub source_column_index: usize,
    pub source_header: Seq<char>,
    pub normalized_source_header: Seq<char>,
    pub target_column_index: Option<usize>,
    pub target_header: Option<Seq<char>>,
    pub score: Option<u32>,
    pub source: MappingSource,
    pub candidates: Seq<MatchCandidateView>,
}

impl View for HeaderMapping {
    type V = HeaderMappingView;

    open spec fn view(&self) -> HeaderMappingView {
        HeaderMappingView {
            source_column_index: self.source_column_index,
            source_header: self.source_header@,
            normalized_source_header: self.normalized_source_header@,
            target_column_index: self.target_column_index,
            target_header: opt_view(self.target_header),
            score: self.score,
            source: self.source,
            candidates: candidates_view(self.candidates@),
        }
    }
}

pub open spec fn mappings_view(v: Seq<HeaderMapping>) -> Seq<HeaderMappingView> {
    v.map_values(|m: HeaderMapping| m@)
}

pub fn clone_opt_string(s: &Option<String>) -> (r: Option<String>)
    ensures
        opt_view(r) == opt_view(*s),
{
    match s {
        Some(x) => Some(x.clone()),
        None => None,
    }
}

impl Clone for HeaderMapping {
    fn clone(&self) -> (r: Self)
        ensures
            r@ == self@,
    {
        HeaderMapping {
            source_column_index: self.source_column_index,
            source_header: self.source_header.clone(),
            normalized_source_header: self.normalized_source_header.clone(),
            target_column_index: self.target_column_index,
            target_header: clone_opt_string(&self.target_header),
            score: self.score,
            source: self.source,
            candidates: clone_candidates(&self.candidates),
        }
    }
}

pub fn clone_mappings(v: &Vec<HeaderMapping>) -> (r: Vec<HeaderMapping>)
    ensures
        mappings_view(r@) == mappings_view(v@),
{
    let mut r: Vec<HeaderMapping> = Vec::new();
    let mut i: usize = 0;
    while i < v.len()
        invariant
            i <= v@.len(),
            r@.len() == i,
            forall|k: int| 0 <= k < i ==> (#[trigger] r@[k])@ == v@[k]@,
        decreases v@.len() - i,
    {
        r.push(v[i].clone());
        i = i + 1;
    }
    assert(mappings_view(r@) =~= mappings_view(v@));
    r
}

#[derive(Debug)]
pub struct SourceColumn {
    pub index: usize,
    pub header: String,
    pub normalized_header: String,
    pub sample_values: Vec<String>,
}

pub struct SourceColumnView {
    pub index: usize,
    pub header: Seq<char>,
    pub normalized_header: Seq<char>,
    pub sample_values: Seq<Seq<char>>,
}

impl View for SourceColumn {
    type V = SourceColumnView;

    open spec fn view(&self) -> SourceColumnView {
        SourceColumnView {
            index: self.index,
            header: self.header@,
            normalized_header: self.normalized_header@,
            sample_values: strings_view(self.sample_values@),
        }
    }
}

pub open spec fn sources_view(v: Seq<SourceColumn>) -> Seq<SourceColumnView> {
    v.map_values(|s: SourceColumn| s@)
}

impl Clone for SourceColumn {
    fn clone(&self) -> (r: Self)
        ensures
            r@ == self@,
    {
        SourceColumn {
            index: self.index,
            header: self.header.clone(),
            normalized_header: self.normalized_header.clone(),
            sample_values: clone_strings(&self.sample_values),
        }
    }
}

pub fn clone_sources(v: &Vec<SourceColumn>) -> (r: Vec<SourceColumn>)
    ensures
        sources_view(r@) == sources_view(v@),
{
    let mut r: Vec<SourceColumn> = Vec::new();
    let mut i: usize = 0;
    while i < v.len()
        invariant
            i <= v@.len(),
            r@.len() == i,
            forall|k: int| 0 <= k < i ==> (#[trigger] r@[k])@ == v@[k]@,
        decreases v@.len() - i,
    {
        r.push(v[i].clone());
        i = i + 1;
    }
    assert(sources_view(r@) =~= sources_view(v@));
    r
}

#[derive(Debug)]
pub struct UpdateMappingRequest {
    pub session_id: String,
    pub source_column_index: usize,
    pub target_column_index: Option<usize>,
}

#[derive(Debug)]
pub struct ConfirmMappingRequest {
    pub session_id: String,
}

} // verus!
