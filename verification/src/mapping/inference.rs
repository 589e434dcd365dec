//! First-row content inference, the last matching stage: source columns that no
//! header stage could place are matched by what their first non-empty value
//! looks like, against template columns that are still free.
//!
//! The texts to embed are planned here; the caller embeds them and scores each
//! planned column against each template column, and the stage takes those
//! score keys.
use vstd::prelude::*;

use crate::domain::mapping::{
    candidates_view, mappings_view, sources_view, HeaderMapping, HeaderMappingView,
    MappingSource, MatchCandidate, MatchCandidateView, SourceColumn, SourceColumnView,
    CONTENT_THRESHOLD, TOKEN_SUBSTRING_SCORE,
};
use crate::domain::template::{columns_view, TemplateColumnView, TemplateSchema};
use crate::mapping::content::{
    combo_of, combo_text, detect_kind, first_sample, first_sample_of, kind_of, kind_tokens,
    token_in, token_in_header, ContentKind,
};
use crate::mapping::greedy::{
    applied, applied_one, assignment_for, greedy_is_maximal, greedy_is_one_to_one, greedy_pick, in_order,
    one_to_one, score_keys, Assignment, AssignmentStrategy,
};
use crate::mapping::history::HistoryLookup;
use crate::mapping::history::HistoryHit;
use crate::mapping::matcher::{
    best_candidates, column_triple, distinct_sources, distinct_targets, embedding_stage,
    find_mapping, header_assigned, header_match, hit_at, initial_mapping, lemma_applied_distinct,
    lemma_top_drawn, mapping_for, pending_indexes, proposals, top_candidates, HeaderMatcher,
};
use crate::seqs::{is_priority_order, lemma_first_match_props, lemma_priority_order_unique};
use crate::text::strings_view;

verus! {

/// Some mapping targets template column `idx`.
pub open spec fn is_taken(mappings: Seq<HeaderMappingView>, idx: usize) -> bool {
    exists|k: int| 0 <= k < mappings.len() && (#[trigger] mappings[k]).target_column_index == Some(idx)
}

/// Indexes of the template columns that no mapping targets, in template order.
pub open spec fn free_targets_of(cols: Seq<TemplateColumnView>, mappings: Seq<HeaderMappingView>) -> Seq<
    usize,
>
    decreases cols.len(),
{
    if cols.len() == 0 {
        Seq::empty()
    } else {
        let prev = free_targets_of(cols.drop_last(), mappings);
        if is_taken(mappings, cols.last().index) {
            prev
        } else {
            prev.push(cols.last().index)
        }
    }
}

/// An unmatched mapping without a target is waiting for `s`, and `s` has a
/// non-blank sample value.
pub open spec fn awaits_content(s: SourceColumnView, mappings: Seq<HeaderMappingView>) -> bool {
    &&& exists|k: int|
        0 <= k < mappings.len() && (#[trigger] mappings[k]).source_column_index == s.index
            && mappings[k].source == MappingSource::Unmatched
            && mappings[k].target_column_index is None
    &&& first_sample_of(s.sample_values) is Some
}

/// The source columns that wait for content inference, in order.
pub open spec fn content_pending(sources: Seq<SourceColumnView>, mappings: Seq<HeaderMappingView>) -> Seq<
    SourceColumnView,
>
    decreases sources.len(),
{
    if sources.len() == 0 {
        Seq::empty()
    } else {
        let prev = content_pending(sources.drop_last(), mappings);
        if awaits_content(sources.last(), mappings) {
            prev.push(sources.last())
        } else {
            prev
        }
    }
}

fn taken(mappings: &Vec<HeaderMapping>, idx: usize) -> (r: bool)
    ensures
        r == is_taken(mappings_view(mappings@), idx),
{
    let ghost mv = mappings_view(mappings@);
    let mut k: usize = 0;
    while k < mappings.len()
        invariant
            k <= mappings@.len(),
            mv == mappings_view(mappings@),
            forall|q: int| 0 <= q < k ==> (#[trigger] mv[q]).target_column_index != Some(idx),
        decreases mappings@.len() - k,
    {
        if mappings[k].target_column_index == Some(idx) {
            assert(mv[k as int].target_column_index == Some(idx));
            return true;
        }
        k = k + 1;
    }
    false
}

/// The template columns that no mapping targets (see `free_targets_of`).
pub fn free_targets(template: &TemplateSchema, mappings: &Vec<HeaderMapping>) -> (r: Vec<usize>)
    ensures
        r@ == free_targets_of(columns_view(template.columns@), mappings_view(mappings@)),
{
    let ghost cols = columns_view(template.columns@);
    let ghost mv = mappings_view(mappings@);
    let mut r: Vec<usize> = Vec::new();
    let mut i: usize = 0;
    while i < template.columns.len()
        invariant
            i <= template.columns@.len(),
            cols == columns_view(template.columns@),
            mv == mappings_view(mappings@),
            r@ == free_targets_of(cols.take(i as int), mv),
        decreases template.columns@.len() - i,
    {
        let idx = template.columns[i].index;
        assert(cols.take(i + 1).drop_last() =~= cols.take(i as int));
        assert(cols.take(i + 1).last().index == idx);
        if !taken(mappings, idx) {
            r.push(idx);
        }
        i = i + 1;
    }
    assert(cols.take(i as int) =~= cols);
    r
}

fn awaits(source: &SourceColumn, mappings: &Vec<HeaderMapping>) -> (r: bool)
    ensures
        r == awaits_content(source@, mappings_view(mappings@)),
{
    let ghost mv = mappings_view(mappings@);
    let mut found = false;
    let mut k: usize = 0;
    while k < mappings.len()
        invariant
            k <= mappings@.len(),
            mv == mappings_view(mappings@),
            found == exists|q: int|
                0 <= q < k && (#[trigger] mv[q]).source_column_index == source.index && mv[q].source
                    == MappingSource::Unmatched && mv[q].target_column_index is None,
        decreases mappings@.len() - k,
    {
        let m = &mappings[k];
        if m.source_column_index == source.index && m.source == MappingSource::Unmatched
            && m.target_column_index.is_none() {
            assert(mv[k as int].source_column_index == source.index);
            found = true;
        }
        k = k + 1;
    }
    found && first_sample(source).is_some()
}

/// Positions in `sources` of the columns that wait for content inference.
pub fn pending_positions(sources: &Vec<SourceColumn>, mappings: &Vec<HeaderMapping>) -> (r: Vec<
    usize,
>)
    ensures
        forall|q: int| 0 <= q < r@.len() ==> #[trigger] r@[q] < sources@.len(),
        r@.map_values(|p: usize| sources@[p as int]@) == content_pending(
            sources_view(sources@),
            mappings_view(mappings@),
        ),
{
    let ghost sv = sources_view(sources@);
    let ghost mv = mappings_view(mappings@);
    let mut r: Vec<usize> = Vec::new();
    let mut i: usize = 0;
    while i < sources.len()
        invariant
            i <= sources@.len(),
            sv == sources_view(sources@),
            mv == mappings_view(mappings@),
            forall|q: int| 0 <= q < r@.len() ==> #[trigger] r@[q] < i,
            r@.map_values(|p: usize| sources@[p as int]@) == content_pending(
                sv.take(i as int),
                mv,
            ),
        decreases sources@.len() - i,
    {
        assert(sv.take(i + 1).drop_last() =~= sv.take(i as int));
        assert(sv.take(i + 1).last() == sources@[i as int]@);
        let ghost before = r@;
        if awaits(&sources[i], mappings) {
            r.push(i);
            assert(r@.map_values(|p: usize| sources@[p as int]@) =~= before.map_values(
                |p: usize| sources@[p as int]@,
            ).push(sources@[i as int]@));
        }
        i = i + 1;
    }
    assert(sv.take(i as int) =~= sv);
    r
}

/// Texts with the later copies of repeated ones dropped.
pub open spec fn dedup(texts: Seq<Seq<char>>) -> Seq<Seq<char>>
    decreases texts.len(),
{
    if texts.len() == 0 {
        Seq::empty()
    } else {
        let prev = dedup(texts.drop_last());
        if prev.contains(texts.last()) {
            prev
        } else {
            prev.push(texts.last())
        }
    }
}

/// The sample of a source column that waits for content inference.
pub open spec fn sample_of(s: SourceColumnView) -> Seq<char> {
    first_sample_of(s.sample_values).unwrap()
}

/// The type tokens of a detected kind.
pub open spec fn tokens_of(kind: Option<ContentKind>) -> Seq<Seq<char>> {
    match kind {
        Some(k) => kind_tokens(k),
        None => Seq::empty(),
    }
}

/// The texts that content inference embeds for one source column: its sample,
/// its header joined with the sample (where `combo_of` gives one), and the type
/// tokens of the sample's kind.
pub open spec fn job_texts(s: SourceColumnView) -> Seq<Seq<char>> {
    let sample = sample_of(s);
    let combo = match combo_of(s.header, sample) {
        Some(c) => seq![c],
        None => Seq::empty(),
    };
    seq![sample] + combo + tokens_of(kind_of(sample))
}

/// The texts requested for the pending columns, in order.
pub open spec fn requested(pending: Seq<SourceColumnView>) -> Seq<Seq<char>>
    decreases pending.len(),
{
    if pending.len() == 0 {
        Seq::empty()
    } else {
        requested(pending.drop_last()) + job_texts(pending.last())
    }
}

/// What content inference does for one source column, by index into the
/// planned texts.
pub struct ContentJob {
    pub source_index: usize,
    pub sample: usize,
    pub combo: Option<usize>,
    pub kind: Option<ContentKind>,
    pub tokens: Vec<usize>,
}

/// The plan of the content stage: the free template columns, the distinct texts
/// to embed, and one job per waiting source column.
pub struct ContentPlan {
    pub free_targets: Vec<usize>,
    pub texts: Vec<String>,
    pub jobs: Vec<ContentJob>,
}

/// `job` is the job of `s` against the texts `texts`.
pub open spec fn job_of(job: ContentJob, s: SourceColumnView, texts: Seq<Seq<char>>) -> bool {
    let sample = sample_of(s);
    let tokens = tokens_of(kind_of(sample));
    &&& job.source_index == s.index
    &&& job.sample < texts.len() && texts[job.sample as int] == sample
    &&& match combo_of(s.header, sample) {
        Some(c) => job.combo matches Some(ci) && ci < texts.len() && texts[ci as int] == c,
        None => job.combo is None,
    }
    &&& job.kind == kind_of(sample)
    &&& job.tokens@.len() == tokens.len()
    &&& forall|t: int|
        0 <= t < tokens.len() ==> #[trigger] job.tokens@[t] < texts.len() && texts[job.tokens@[t] as int]
            == tokens[t]
}

/// Adding a text keeps what earlier positions hold.
proof fn lemma_job_of_grows(job: ContentJob, s: SourceColumnView, texts: Seq<Seq<char>>, more: Seq<
    Seq<char>,
>)
    requires
        job_of(job, s, texts),
        more.len() >= texts.len(),
        forall|q: int| 0 <= q < texts.len() ==> more[q] == texts[q],
    ensures
        job_of(job, s, more),
{
    let tokens = tokens_of(kind_of(sample_of(s)));
    assert forall|t: int| 0 <= t < tokens.len() implies #[trigger] job.tokens@[t] < more.len()
        && more[job.tokens@[t] as int] == tokens[t] by {
        assert(job.tokens@[t] < texts.len());
    }
}

/// Adds `text` to `texts` unless it is there, and gives its position.
fn intern(texts: &mut Vec<String>, text: String) -> (r: usize)
    ensures
        extends(strings_view(old(texts)@), strings_view(final(texts)@)),
        strings_view(final(texts)@) == (if strings_view(old(texts)@).contains(text@) {
            strings_view(old(texts)@)
        } else {
            strings_view(old(texts)@).push(text@)
        }),
        r < final(texts)@.len(),
        final(texts)@[r as int]@ == text@,
{
    let ghost before = strings_view(texts@);
    let mut i: usize = 0;
    while i < texts.len()
        invariant
            i <= texts@.len(),
            before == strings_view(texts@),
            forall|q: int| 0 <= q < i ==> before[q] != text@,
        decreases texts@.len() - i,
    {
        if texts[i] == text {
            assert(before[i as int] == text@);
            return i;
        }
        i = i + 1;
    }
    assert(!before.contains(text@));
    let n = texts.len();
    texts.push(text);
    assert(strings_view(texts@) =~= before.push(text@));
    n
}

/// `longer` starts with `shorter`.
pub open spec fn extends(shorter: Seq<Seq<char>>, longer: Seq<Seq<char>>) -> bool {
    longer.len() >= shorter.len() && forall|q: int| 0 <= q < shorter.len() ==> longer[q] == shorter[q]
}

proof fn lemma_dedup_push(req: Seq<Seq<char>>, x: Seq<char>)
    ensures
        dedup(req.push(x)) == (if dedup(req).contains(x) {
            dedup(req)
        } else {
            dedup(req).push(x)
        }),
{
    assert(req.push(x).drop_last() =~= req);
}

/// Plans the job of one waiting source column, adding its texts to `texts`.
fn plan_job(texts: &mut Vec<String>, source: &SourceColumn, Ghost(req): Ghost<Seq<Seq<char>>>) -> (job:
    ContentJob)
    requires
        first_sample_of(source@.sample_values) is Some,
        strings_view(old(texts)@) == dedup(req),
    ensures
        strings_view(final(texts)@) == dedup(req + job_texts(source@)),
        extends(strings_view(old(texts)@), strings_view(final(texts)@)),
        job_of(job, source@, strings_view(final(texts)@)),
{
    let ghost start = strings_view(texts@);
    let sample_ref = match first_sample(source) {
        Some(x) => x,
        None => {
            assert(false);
            ""
        },
    };
    let ghost sample = sample_ref@;
    let ghost mut cur = req;
    proof {
        lemma_dedup_push(cur, sample);
        cur = cur.push(sample);
    }
    let sample_idx = intern(texts, sample_ref.to_owned());
    let ghost after_sample = strings_view(texts@);
    let combo = match combo_text(source.header.as_str(), sample_ref) {
        Some(c) => {
            let ghost cv = c@;
            proof {
                lemma_dedup_push(cur, cv);
                cur = cur.push(cv);
            }
            Some(intern(texts, c))
        },
        None => None,
    };
    let ghost after_combo = strings_view(texts@);
    let kind = detect_kind(sample_ref);
    let mut tokens: Vec<usize> = Vec::new();
    let ghost toks = tokens_of(kind_of(sample));
    match kind {
        Some(k) => {
            let words = k.type_tokens();
            let mut t: usize = 0;
            while t < words.len()
                invariant
                    t <= words@.len() == toks.len(),
                    toks == kind_tokens(k),
                    forall|q: int| 0 <= q < words@.len() ==> #[trigger] words@[q]@ == toks[q],
                    strings_view(texts@) == dedup(cur),
                    extends(after_combo, strings_view(texts@)),
                    tokens@.len() == t,
                    forall|q: int|
                        0 <= q < t ==> #[trigger] tokens@[q] < texts@.len() && strings_view(
                            texts@,
                        )[tokens@[q] as int] == toks[q],
                    cur =~= req.push(sample) + (match combo_of(source@.header, sample) {
                        Some(c) => seq![c],
                        None => Seq::<Seq<char>>::empty(),
                    }) + toks.take(t as int),
                decreases words@.len() - t,
            {
                let word = words[t].to_owned();
                let ghost wv = word@;
                let ghost prev = strings_view(texts@);
                proof {
                    lemma_dedup_push(cur, wv);
                    cur = cur.push(wv);
                }
                let at = intern(texts, word);
                tokens.push(at);
                t = t + 1;
                assert(toks.take(t as int) =~= toks.take(t - 1).push(toks[t - 1]));
            }
            assert(toks.take(t as int) =~= toks);
        },
        None => {},
    }
    let job = ContentJob { source_index: source.index, sample: sample_idx, combo, kind, tokens };
    proof {
        let fin = strings_view(texts@);
        assert(req + job_texts(source@) =~= cur);
        assert(fin[sample_idx as int] == sample);
    }
    job
}

impl<'a, H: HistoryLookup> HeaderMatcher<'a, H> {
    /// Plans the content stage: `None` where no template column is free or no
    /// source column waits; else the free columns, the distinct texts to embed
    /// in the order first requested, and a job per waiting source column.
    pub fn plan_content(&self, sources: &Vec<SourceColumn>, mappings: &Vec<HeaderMapping>) -> (r:
        Option<ContentPlan>)
        ensures
            ({
                let free = free_targets_of(
                    columns_view(self.template.columns@),
                    mappings_view(mappings@),
                );
                let pend = content_pending(sources_view(sources@), mappings_view(mappings@));
                &&& r is None <==> (free.len() == 0 || pend.len() == 0)
                &&& r matches Some(p) ==> {
                    &&& p.free_targets@ == free
                    &&& strings_view(p.texts@) == dedup(requested(pend))
                    &&& p.jobs@.len() == pend.len()
                    &&& forall|j: int|
                        0 <= j < pend.len() ==> job_of(
                            #[trigger] p.jobs@[j],
                            pend[j],
                            strings_view(p.texts@),
                        )
                }
            }),
    {
        let free = free_targets(self.template, mappings);
        if free.len() == 0 {
            return None;
        }
        let positions = pending_positions(sources, mappings);
        let ghost pend = content_pending(sources_view(sources@), mappings_view(mappings@));
        assert(pend.len() == positions@.len());
        if positions.len() == 0 {
            return None;
        }
        let mut texts: Vec<String> = Vec::new();
        let mut jobs: Vec<ContentJob> = Vec::new();
        assert(strings_view(texts@) =~= dedup(requested(pend.take(0))));
        let mut j: usize = 0;
        while j < positions.len()
            invariant
                j <= positions@.len() == pend.len(),
                pend == content_pending(sources_view(sources@), mappings_view(mappings@)),
                forall|q: int| 0 <= q < positions@.len() ==> #[trigger] positions@[q] < sources@.len(),
                positions@.map_values(|p: usize| sources@[p as int]@) == pend,
                strings_view(texts@) == dedup(requested(pend.take(j as int))),
                jobs@.len() == j,
                forall|q: int|
                    0 <= q < j ==> job_of(#[trigger] jobs@[q], pend[q], strings_view(texts@)),
            decreases positions@.len() - j,
        {
            let source = &sources[positions[j]];
            assert(source@ == positions@.map_values(|p: usize| sources@[p as int]@)[j as int]);
            assert(awaits_content(pend[j as int], mappings_view(mappings@))) by {
                lemma_pending_awaits(sources_view(sources@), mappings_view(mappings@), j as int);
            }
            let ghost before = strings_view(texts@);
            let job = plan_job(&mut texts, source, Ghost(requested(pend.take(j as int))));
            proof {
                assert(pend.take(j + 1).drop_last() =~= pend.take(j as int));
                assert forall|q: int| 0 <= q < j implies job_of(
                    #[trigger] jobs@[q],
                    pend[q],
                    strings_view(texts@),
                ) by {
                    lemma_job_of_grows(jobs@[q], pend[q], before, strings_view(texts@));
                }
            }
            jobs.push(job);
            j = j + 1;
        }
        assert(pend.take(j as int) =~= pend);
        Some(ContentPlan { free_targets: free, texts, jobs })
    }
}

/// Every column in `content_pending` waits for content inference.
pub proof fn lemma_pending_awaits(sources: Seq<SourceColumnView>, mappings: Seq<HeaderMappingView>, j: int)
    requires
        0 <= j < content_pending(sources, mappings).len(),
    ensures
        awaits_content(content_pending(sources, mappings)[j], mappings),
    decreases sources.len(),
{
    if sources.len() > 0 {
        let prev = content_pending(sources.drop_last(), mappings);
        if j < prev.len() {
            lemma_pending_awaits(sources.drop_last(), mappings, j);
        }
    }
}

/// The content score of a template column: the score from the embeddings,
/// raised to the token score where a type token occurs in the column's header.
pub open spec fn content_score(key: u32, tokens: Seq<Seq<char>>, header: Seq<char>) -> u32 {
    if key < TOKEN_SUBSTRING_SCORE && exists|t: int|
        0 <= t < tokens.len() && #[trigger] token_in(tokens[t], header) {
        TOKEN_SUBSTRING_SCORE
    } else {
        key
    }
}

/// The first `n` template columns that are free, as candidates with their
/// content scores; `keys[c]` is the embedding score of column `c`.
pub open spec fn content_scored(
    cols: Seq<TemplateColumnView>,
    keys: Seq<u32>,
    free: Seq<usize>,
    tokens: Seq<Seq<char>>,
    n: int,
) -> Seq<MatchCandidateView>
    decreases n,
{
    if n <= 0 {
        Seq::empty()
    } else {
        let prev = content_scored(cols, keys, free, tokens, n - 1);
        let c = cols[n - 1];
        if free.contains(c.index) {
            prev.push(
                MatchCandidateView {
                    template_column_index: c.index,
                    template_header: c.name,
                    score: content_score(keys[n - 1], tokens, c.normalized_name),
                },
            )
        } else {
            prev
        }
    }
}

/// The best free columns for a sample by content score.
pub open spec fn content_candidates_of(
    cols: Seq<TemplateColumnView>,
    keys: Seq<u32>,
    free: Seq<usize>,
    tokens: Seq<Seq<char>>,
) -> Seq<MatchCandidateView> {
    let n = if cols.len() <= keys.len() {
        cols.len()
    } else {
        keys.len()
    };
    top_candidates(content_scored(cols, keys, free, tokens, n as int))
}

fn contains_index(v: &Vec<usize>, x: usize) -> (r: bool)
    ensures
        r == v@.contains(x),
{
    let mut i: usize = 0;
    while i < v.len()
        invariant
            i <= v@.len(),
            forall|q: int| 0 <= q < i ==> v@[q] != x,
        decreases v@.len() - i,
    {
        if v[i] == x {
            assert(v@[i as int] == x);
            return true;
        }
        i = i + 1;
    }
    false
}

/// The content score of a column whose normalized header is `header` (see `content_score`).
pub fn score_with_tokens(key: u32, words: &Vec<&str>, header: &str) -> (r: u32)
    ensures
        r == content_score(key, words@.map_values(|w: &str| w@), header@),
{
    let ghost tokens = words@.map_values(|w: &str| w@);
    if key >= TOKEN_SUBSTRING_SCORE {
        return key;
    }
    let mut t: usize = 0;
    while t < words.len()
        invariant
            t <= words@.len(),
            key < TOKEN_SUBSTRING_SCORE,
            tokens == words@.map_values(|w: &str| w@),
            forall|q: int| 0 <= q < t ==> !token_in(#[trigger] tokens[q], header@),
        decreases words@.len() - t,
    {
        assert(tokens[t as int] == words@[t as int]@);
        if token_in_header(words[t], header) {
            assert(token_in(tokens[t as int], header@));
            return TOKEN_SUBSTRING_SCORE;
        }
        t = t + 1;
    }
    key
}

/// The type tokens of a kind, or none.
fn kind_words(kind: Option<ContentKind>) -> (r: Vec<&'static str>)
    ensures
        r@.map_values(|w: &str| w@) == tokens_of(kind),
{
    match kind {
        Some(k) => {
            let r = k.type_tokens();
            assert(r@.map_values(|w: &str| w@) =~= kind_tokens(k));
            r
        },
        None => {
            let r: Vec<&'static str> = Vec::new();
            assert(r@.map_values(|w: &str| w@) =~= Seq::<Seq<char>>::empty());
            r
        },
    }
}

/// The best free template columns for a sample of kind `kind` (see
/// `content_candidates_of`); `keys[c]` is the embedding score of column `c`.
pub fn content_candidates(
    template: &TemplateSchema,
    free_targets: &Vec<usize>,
    keys: &[u32],
    kind: Option<ContentKind>,
) -> (r: Vec<MatchCandidate>)
    ensures
        candidates_view(r@) == content_candidates_of(
            columns_view(template.columns@),
            keys@,
            free_targets@,
            tokens_of(kind),
        ),
        forall|i: int| 0 <= i < r@.len() ==> free_targets@.contains(#[trigger] r@[i].template_column_index),
{
    let ghost cols = columns_view(template.columns@);
    let ghost tokens = tokens_of(kind);
    let words = kind_words(kind);
    let n: usize = if template.columns.len() <= keys.len() {
        template.columns.len()
    } else {
        keys.len()
    };
    let mut scored: Vec<MatchCandidate> = Vec::new();
    let mut j: usize = 0;
    while j < n
        invariant
            n <= template.columns@.len(),
            n <= keys@.len(),
            j <= n,
            cols == columns_view(template.columns@),
            words@.map_values(|w: &str| w@) == tokens,
            candidates_view(scored@) == content_scored(cols, keys@, free_targets@, tokens, j as int),
            forall|q: int|
                0 <= q < scored@.len() ==> free_targets@.contains(#[trigger] scored@[q].template_column_index),
        decreases n - j,
    {
        let col = &template.columns[j];
        assert(cols[j as int] == col@);
        if contains_index(free_targets, col.index) {
            let score = score_with_tokens(keys[j], &words, col.normalized_name.as_str());
            let ghost old_s = scored@;
            scored.push(
                MatchCandidate {
                    template_column_index: col.index,
                    template_header: col.name.clone(),
                    score,
                },
            );
            assert(candidates_view(scored@) =~= candidates_view(old_s).push(
                MatchCandidateView {
                    template_column_index: col.index,
                    template_header: col.name@,
                    score,
                },
            ));
        }
        j = j + 1;
    }
    let r = best_candidates(&scored);
    assert forall|i: int| 0 <= i < r@.len() implies free_targets@.contains(
        #[trigger] r@[i].template_column_index,
    ) by {
        assert(candidates_view(r@)[i] == r@[i]@);
        assert(candidates_view(scored@).contains(candidates_view(r@)[i]));
        let j = choose|j: int|
            0 <= j < scored@.len() && candidates_view(scored@)[j] == candidates_view(r@)[i];
        assert(candidates_view(scored@)[j] == scored@[j]@);
        assert(free_targets@.contains(scored@[j].template_column_index));
    }
    r
}

/// One step of the content stage for source column `src`: its mapping takes
/// the content candidates and proposes the best one, where that reaches the
/// content threshold.
pub open spec fn content_step(
    mappings: Seq<HeaderMappingView>,
    cols: Seq<TemplateColumnView>,
    free: Seq<usize>,
    src: usize,
    kind: Option<ContentKind>,
    keys: Seq<u32>,
) -> (Seq<HeaderMappingView>, Option<Assignment>) {
    match mapping_for(mappings, src) {
        None => (mappings, None),
        Some(k) => {
            let c = content_candidates_of(cols, keys, free, tokens_of(kind));
            if c.len() > 0 && c[0].score >= CONTENT_THRESHOLD {
                (
                    mappings.update(
                        k,
                        HeaderMappingView {
                            source: MappingSource::Content,
                            candidates: c,
                            ..mappings[k]
                        },
                    ),
                    Some(
                        Assignment {
                            source_column_index: src,
                            target_column_index: c[0].template_column_index,
                            score: c[0].score,
                        },
                    ),
                )
            } else {
                (mappings, None)
            }
        },
    }
}

/// The first `n` steps of the content stage, with the proposals they make.
pub open spec fn content_steps(
    mappings: Seq<HeaderMappingView>,
    cols: Seq<TemplateColumnView>,
    free: Seq<usize>,
    pend: Seq<SourceColumnView>,
    keys: Seq<Seq<u32>>,
    n: int,
) -> (Seq<HeaderMappingView>, Seq<Assignment>)
    decreases n,
{
    if n <= 0 {
        (mappings, Seq::empty())
    } else {
        let prev = content_steps(mappings, cols, free, pend, keys, n - 1);
        let s = pend[n - 1];
        let step = content_step(prev.0, cols, free, s.index, kind_of(sample_of(s)), keys[n - 1]);
        (
            step.0,
            match step.1 {
                Some(a) => prev.1.push(a),
                None => prev.1,
            },
        )
    }
}

/// A content match once the chosen assignments are applied; other mappings
/// stay as they are.
pub open spec fn content_applied(m: HeaderMappingView, chosen: Seq<Assignment>) -> HeaderMappingView {
    if m.source == MappingSource::Content {
        applied(m, chosen)
    } else {
        m
    }
}

/// The whole content stage: `keys[j][c]` is the embedding score of template
/// column `c` for the `j`-th waiting source column.
pub open spec fn content_stage(
    mappings: Seq<HeaderMappingView>,
    cols: Seq<TemplateColumnView>,
    sources: Seq<SourceColumnView>,
    keys: Seq<Seq<u32>>,
) -> Seq<HeaderMappingView> {
    let free = free_targets_of(cols, mappings);
    let pend = content_pending(sources, mappings);
    if free.len() == 0 || pend.len() == 0 {
        mappings
    } else {
        let n = if pend.len() <= keys.len() {
            pend.len()
        } else {
            keys.len()
        };
        let steps = content_steps(mappings, cols, free, pend, keys, n as int);
        let order = choose|o: Seq<usize>| is_priority_order(o, score_keys(steps.1));
        steps.0.map_values(
            |m: HeaderMappingView| content_applied(m, greedy_pick(in_order(steps.1, order))),
        )
    }
}

/// Applies the chosen content assignments (see `content_applied`).
pub fn apply_content_assignments(mappings: &mut Vec<HeaderMapping>, chosen: &[Assignment])
    ensures
        mappings_view(final(mappings)@) == mappings_view(old(mappings)@).map_values(
            |m: HeaderMappingView| content_applied(m, chosen@),
        ),
{
    let ghost start = mappings_view(mappings@);
    let mut i: usize = 0;
    while i < mappings.len()
        invariant
            i <= mappings@.len() == start.len(),
            forall|k: int|
                0 <= k < i ==> (#[trigger] mappings@[k])@ == content_applied(start[k], chosen@),
            forall|k: int| i <= k < mappings@.len() ==> (#[trigger] mappings@[k])@ == start[k],
        decreases mappings@.len() - i,
    {
        assert(mappings@[i as int]@ == start[i as int]);
        if mappings[i].source == MappingSource::Content {
            let m = applied_one(&mappings[i], chosen);
            mappings.set(i, m);
        }
        i = i + 1;
    }
    assert(mappings_view(mappings@) =~= start.map_values(
        |m: HeaderMappingView| content_applied(m, chosen@),
    ));
}

impl<'a, H: HistoryLookup> HeaderMatcher<'a, H> {
    /// One step of the content stage (see `content_step`).
    pub fn content_step(
        &self,
        mappings: &mut Vec<HeaderMapping>,
        free_targets: &Vec<usize>,
        src: usize,
        kind: Option<ContentKind>,
        keys: &[u32],
    ) -> (r: Option<Assignment>)
        ensures
            (mappings_view(final(mappings)@), r) == content_step(
                mappings_view(old(mappings)@),
                columns_view(self.template.columns@),
                free_targets@,
                src,
                kind,
                keys@,
            ),
            r matches Some(a) ==> free_targets@.contains(a.target_column_index),
    {
        let ghost before = mappings_view(mappings@);
        match find_mapping(mappings, src) {
            None => None,
            Some(k) => {
                let candidates = content_candidates(self.template, free_targets, keys, kind);
                if candidates.len() > 0 && candidates[0].score >= CONTENT_THRESHOLD {
                    let a = Assignment {
                        source_column_index: src,
                        target_column_index: candidates[0].template_column_index,
                        score: candidates[0].score,
                    };
                    let mut m = mappings[k].clone();
                    assert(m@ == before[k as int]);
                    m.source = MappingSource::Content;
                    m.candidates = candidates;
                    mappings.set(k, m);
                    assert(mappings_view(mappings@) =~= before.update(k as int, m@));
                    Some(a)
                } else {
                    None
                }
            },
        }
    }

    /// The content stage (see `content_stage`): `scores[j][c]` is the embedding
    /// score of template column `c` for the `j`-th job of `plan_content`.
    pub fn apply_content_scores(
        &self,
        sources: &Vec<SourceColumn>,
        mappings: &mut Vec<HeaderMapping>,
        scores: &Vec<Vec<u32>>,
    )
        ensures
            mappings_view(final(mappings)@) == content_stage(
                mappings_view(old(mappings)@),
                columns_view(self.template.columns@),
                sources_view(sources@),
                scores@.map_values(|v: Vec<u32>| v@),
            ),
            distinct_sources(mappings_view(old(mappings)@)) ==> keeps_taken(
                mappings_view(old(mappings)@),
                mappings_view(final(mappings)@),
            ),
    {
        let ghost start = mappings_view(mappings@);
        let ghost cols = columns_view(self.template.columns@);
        let ghost keys = scores@.map_values(|v: Vec<u32>| v@);
        let free = free_targets(self.template, mappings);
        if free.len() == 0 {
            return;
        }
        let positions = pending_positions(sources, mappings);
        let ghost pend = content_pending(sources_view(sources@), start);
        if positions.len() == 0 {
            return;
        }
        let n: usize = if positions.len() <= scores.len() {
            positions.len()
        } else {
            scores.len()
        };
        let mut proposed: Vec<Assignment> = Vec::new();
        let mut j: usize = 0;
        while j < n
            invariant
                n <= positions@.len() == pend.len(),
                n <= scores@.len(),
                j <= n,
                pend == content_pending(sources_view(sources@), start),
                free@ == free_targets_of(cols, start),
                cols == columns_view(self.template.columns@),
                keys == scores@.map_values(|v: Vec<u32>| v@),
                forall|q: int| 0 <= q < positions@.len() ==> #[trigger] positions@[q] < sources@.len(),
                positions@.map_values(|p: usize| sources@[p as int]@) == pend,
                (mappings_view(mappings@), proposed@) == content_steps(
                    start,
                    cols,
                    free@,
                    pend,
                    keys,
                    j as int,
                ),
                forall|q: int|
                    0 <= q < proposed@.len() ==> free@.contains(
                        #[trigger] proposed@[q].target_column_index,
                    ),
            decreases n - j,
        {
            let source = &sources[positions[j]];
            assert(source@ == positions@.map_values(|p: usize| sources@[p as int]@)[j as int]);
            proof {
                lemma_pending_awaits(sources_view(sources@), start, j as int);
            }
            let sample = match first_sample(source) {
                Some(x) => x,
                None => {
                    assert(false);
                    ""
                },
            };
            let kind = detect_kind(sample);
            assert(keys[j as int] == scores@[j as int]@);
            let step = self.content_step(mappings, &free, source.index, kind, scores[j].as_slice());
            match step {
                Some(a) => proposed.push(a),
                None => {},
            }
            j = j + 1;
        }
        let chosen = AssignmentStrategy::greedy(proposed.as_slice());
        proof {
            let props = proposed@;
            let o1 = choose|o: Seq<usize>|
                is_priority_order(o, score_keys(props)) && chosen@ == greedy_pick(
                    in_order(props, o),
                );
            let o2 = choose|o: Seq<usize>| is_priority_order(o, score_keys(props));
            lemma_priority_order_unique(o1, o2, score_keys(props));
            greedy_is_one_to_one(props, o1);
            greedy_is_maximal(props, o1);
            assert forall|q: int| 0 <= q < chosen@.len() implies free@.contains(
                #[trigger] chosen@[q].target_column_index,
            ) by {
                assert(chosen@.contains(chosen@[q]));
                assert(props.contains(chosen@[q]));
            }
            if distinct_sources(start) {
                assert forall|q: int| 0 <= q < pend.len() implies awaits_content(
                    #[trigger] pend[q],
                    start,
                ) by {
                    lemma_pending_awaits(sources_view(sources@), start, q);
                }
                lemma_content_law(start, cols, free@, pend, keys, n as int, chosen@);
            }
        }
        apply_content_assignments(mappings, chosen.as_slice());
    }
}

/// A free column is one that no mapping targets.
pub proof fn lemma_free_not_taken(cols: Seq<TemplateColumnView>, mappings: Seq<HeaderMappingView>, x: usize)
    requires
        free_targets_of(cols, mappings).contains(x),
    ensures
        !is_taken(mappings, x),
    decreases cols.len(),
{
    if cols.len() > 0 {
        let prev = free_targets_of(cols.drop_last(), mappings);
        if prev.contains(x) {
            lemma_free_not_taken(cols.drop_last(), mappings, x);
        } else {
            let i = choose|i: int| 0 <= i < free_targets_of(cols, mappings).len() && free_targets_of(cols, mappings)[i] == x;
            assert(i == prev.len());
        }
    }
}

/// The steps of the content stage change only mappings that were unmatched and
/// without a target, and those only into content matches without a target,
/// where no two mappings are for one source column.
pub proof fn lemma_content_steps(
    mappings: Seq<HeaderMappingView>,
    cols: Seq<TemplateColumnView>,
    free: Seq<usize>,
    pend: Seq<SourceColumnView>,
    keys: Seq<Seq<u32>>,
    n: int,
)
    requires
        distinct_sources(mappings),
        0 <= n <= pend.len(),
        forall|j: int| 0 <= j < pend.len() ==> awaits_content(#[trigger] pend[j], mappings),
    ensures
        content_steps(mappings, cols, free, pend, keys, n).0.len() == mappings.len(),
        forall|k: int|
            0 <= k < mappings.len() ==> #[trigger] content_steps(mappings, cols, free, pend, keys, n).0[k]
                == mappings[k] || (mappings[k].source == MappingSource::Unmatched
                && mappings[k].target_column_index is None && content_steps(
                mappings,
                cols,
                free,
                pend,
                keys,
                n,
            ).0[k].source == MappingSource::Content && content_steps(
                mappings,
                cols,
                free,
                pend,
                keys,
                n,
            ).0[k].source_column_index == mappings[k].source_column_index && content_steps(
                mappings,
                cols,
                free,
                pend,
                keys,
                n,
            ).0[k].target_column_index is None),
    decreases n,
{
    if n > 0 {
        lemma_content_steps(mappings, cols, free, pend, keys, n - 1);
        let prev = content_steps(mappings, cols, free, pend, keys, n - 1).0;
        let s = pend[n - 1];
        let now = content_steps(mappings, cols, free, pend, keys, n).0;
        let p = |m: HeaderMappingView| m.source_column_index == s.index;
        lemma_first_match_props(prev, p);
        assert(awaits_content(pend[n - 1], mappings));
        match mapping_for(prev, s.index) {
            Some(k) => {
                let w = choose|w: int|
                    0 <= w < mappings.len() && (#[trigger] mappings[w]).source_column_index == s.index
                        && mappings[w].source == MappingSource::Unmatched
                        && mappings[w].target_column_index is None;
                if w != k {
                    assert(prev[k].source_column_index == mappings[k].source_column_index);
                    if w < k {
                        assert(mappings[w].source_column_index != mappings[k].source_column_index);
                    } else {
                        assert(mappings[k].source_column_index != mappings[w].source_column_index);
                    }
                }
                assert forall|q: int| 0 <= q < mappings.len() implies #[trigger] now[q] == mappings[q]
                    || (mappings[q].source == MappingSource::Unmatched
                    && mappings[q].target_column_index is None && now[q].source
                    == MappingSource::Content && now[q].source_column_index
                    == mappings[q].source_column_index && now[q].target_column_index is None) by {
                    if q != k {
                        assert(now[q] == prev[q]);
                    }
                }
            },
            None => {},
        }
    }
}

/// A mapping that is not set by hand gets a target from the chosen assignments
/// only: from the first one for its source column.
pub proof fn lemma_applied_target(m: HeaderMappingView, chosen: Seq<Assignment>)
    requires
        m.source != MappingSource::Manual,
    ensures
        applied(m, chosen).source_column_index == m.source_column_index,
        applied(m, chosen).target_column_index matches Some(t) ==> exists|k: int|
            0 <= k < chosen.len() && (#[trigger] chosen[k]).source_column_index
                == m.source_column_index && chosen[k].target_column_index == t,
{
    lemma_first_match_props(chosen, |a: Assignment| a.source_column_index == m.source_column_index);
}

/// Mappings that had a target and are not content matches come out of the
/// content stage unchanged; no two mappings share a target after it if none did
/// before.
pub open spec fn keeps_taken(before: Seq<HeaderMappingView>, after: Seq<HeaderMappingView>) -> bool {
    &&& after.len() == before.len()
    &&& forall|k: int|
        0 <= k < before.len() && (#[trigger] before[k]).target_column_index is Some && before[k].source
            != MappingSource::Content ==> after[k] == before[k]
    &&& distinct_targets(before) ==> distinct_targets(after)
}

proof fn lemma_content_law(
    mappings: Seq<HeaderMappingView>,
    cols: Seq<TemplateColumnView>,
    free: Seq<usize>,
    pend: Seq<SourceColumnView>,
    keys: Seq<Seq<u32>>,
    n: int,
    chosen: Seq<Assignment>,
)
    requires
        distinct_sources(mappings),
        free == free_targets_of(cols, mappings),
        0 <= n <= pend.len(),
        forall|j: int| 0 <= j < pend.len() ==> awaits_content(#[trigger] pend[j], mappings),
        one_to_one(chosen),
        forall|q: int| 0 <= q < chosen.len() ==> free.contains(#[trigger] chosen[q].target_column_index),
    ensures
        keeps_taken(
            mappings,
            content_steps(mappings, cols, free, pend, keys, n).0.map_values(
                |m: HeaderMappingView| content_applied(m, chosen),
            ),
        ),
{
    let st = content_steps(mappings, cols, free, pend, keys, n).0;
    let fin = st.map_values(|m: HeaderMappingView| content_applied(m, chosen));
    lemma_content_steps(mappings, cols, free, pend, keys, n);
    assert forall|k: int|
        0 <= k < mappings.len() && (#[trigger] mappings[k]).target_column_index is Some
            && mappings[k].source != MappingSource::Content implies fin[k] == mappings[k] by {
        assert(st[k] == mappings[k]);
    }
    if distinct_targets(mappings) {
        assert forall|i: int, j: int|
            0 <= i < fin.len() && 0 <= j < fin.len() && i != j && (
            #[trigger] fin[i]).target_column_index is Some implies fin[i].target_column_index
            != (#[trigger] fin[j]).target_column_index by {
            let t = fin[i].target_column_index.unwrap();
            if fin[j].target_column_index == Some(t) {
                if st[i].source == MappingSource::Content {
                    lemma_applied_target(st[i], chosen);
                    let ki = choose|ki: int|
                        0 <= ki < chosen.len() && (#[trigger] chosen[ki]).source_column_index
                            == st[i].source_column_index && chosen[ki].target_column_index == t;
                    assert(free.contains(chosen[ki].target_column_index));
                    if st[j].source == MappingSource::Content {
                        lemma_applied_target(st[j], chosen);
                        let kj = choose|kj: int|
                            0 <= kj < chosen.len() && (#[trigger] chosen[kj]).source_column_index
                                == st[j].source_column_index && chosen[kj].target_column_index == t;
                        if ki < kj {
                            assert(chosen[ki].target_column_index != chosen[kj].target_column_index);
                        } else if kj < ki {
                            assert(chosen[kj].target_column_index != chosen[ki].target_column_index);
                        }
                        if i < j {
                            assert(mappings[i].source_column_index != mappings[j].source_column_index);
                        } else {
                            assert(mappings[j].source_column_index != mappings[i].source_column_index);
                        }
                    } else {
                        assert(st[j] == mappings[j]);
                        assert(is_taken(mappings, t));
                        lemma_free_not_taken(cols, mappings, t);
                    }
                } else {
                    assert(st[i] == mappings[i]);
                    if st[j].source == MappingSource::Content {
                        lemma_applied_target(st[j], chosen);
                        let kj = choose|kj: int|
                            0 <= kj < chosen.len() && (#[trigger] chosen[kj]).source_column_index
                                == st[j].source_column_index && chosen[kj].target_column_index == t;
                        assert(free.contains(chosen[kj].target_column_index));
                        assert(is_taken(mappings, t));
                        lemma_free_not_taken(cols, mappings, t);
                    } else {
                        assert(st[j] == mappings[j]);
                    }
                }
            }
        }
    }
}

/// Content candidates are free columns only.
proof fn lemma_content_scored_free(
    cols: Seq<TemplateColumnView>,
    keys: Seq<u32>,
    free: Seq<usize>,
    tokens: Seq<Seq<char>>,
    n: int,
)
    ensures
        content_scored(cols, keys, free, tokens, n).len() <= if n > 0 {
            n
        } else {
            0
        },
        forall|i: int|
            0 <= i < content_scored(cols, keys, free, tokens, n).len() ==> free.contains(
                (#[trigger] content_scored(cols, keys, free, tokens, n)[i]).template_column_index,
            ),
    decreases n,
{
    if n > 0 {
        lemma_content_scored_free(cols, keys, free, tokens, n - 1);
    }
}

/// The proposals of the content steps name free columns only.
proof fn lemma_content_steps_free(
    mappings: Seq<HeaderMappingView>,
    cols: Seq<TemplateColumnView>,
    free: Seq<usize>,
    pend: Seq<SourceColumnView>,
    keys: Seq<Seq<u32>>,
    n: int,
)
    requires
        cols.len() <= usize::MAX,
    ensures
        content_steps(mappings, cols, free, pend, keys, n).1.len() <= if n > 0 {
            n
        } else {
            0
        },
        forall|q: int|
            0 <= q < content_steps(mappings, cols, free, pend, keys, n).1.len() ==> free.contains(
                (#[trigger] content_steps(mappings, cols, free, pend, keys, n).1[q]).target_column_index,
            ),
    decreases n,
{
    if n > 0 {
        lemma_content_steps_free(mappings, cols, free, pend, keys, n - 1);
        let prev = content_steps(mappings, cols, free, pend, keys, n - 1);
        let s = pend[n - 1];
        let k = keys[n - 1];
        let toks = tokens_of(kind_of(sample_of(s)));
        let m = if cols.len() <= k.len() {
            cols.len()
        } else {
            k.len()
        };
        let scored = content_scored(cols, k, free, toks, m as int);
        lemma_content_scored_free(cols, k, free, toks, m as int);
        lemma_top_drawn(scored);
        let c = content_candidates_of(cols, k, free, toks);
        if c.len() > 0 {
            assert(scored.contains(c[0]));
        }
    }
}

/// Content inference never takes a template column that a mapping already
/// targets: where no two mappings are for one source column, every mapping
/// that had a target (and was not itself a content match) comes out of the
/// content stage unchanged, and if no two mappings shared a target before,
/// none do after.
pub proof fn content_never_steals(
    mappings: Seq<HeaderMappingView>,
    cols: Seq<TemplateColumnView>,
    sources: Seq<SourceColumnView>,
    keys: Seq<Seq<u32>>,
)
    requires
        distinct_sources(mappings),
        cols.len() <= usize::MAX,
        sources.len() <= usize::MAX,
    ensures
        keeps_taken(mappings, content_stage(mappings, cols, sources, keys)),
{
    let free = free_targets_of(cols, mappings);
    let pend = content_pending(sources, mappings);
    if free.len() > 0 && pend.len() > 0 {
        lemma_content_pending_len(sources, mappings);
        let n = if pend.len() <= keys.len() {
            pend.len()
        } else {
            keys.len()
        };
        let steps = content_steps(mappings, cols, free, pend, keys, n as int);
        lemma_content_steps_free(mappings, cols, free, pend, keys, n as int);
        crate::seqs::lemma_priority_order_exists(score_keys(steps.1));
        let order = choose|o: Seq<usize>| is_priority_order(o, score_keys(steps.1));
        greedy_is_one_to_one(steps.1, order);
        greedy_is_maximal(steps.1, order);
        let chosen = greedy_pick(in_order(steps.1, order));
        assert forall|q: int| 0 <= q < chosen.len() implies free.contains(
            #[trigger] chosen[q].target_column_index,
        ) by {
            assert(chosen.contains(chosen[q]));
            assert(steps.1.contains(chosen[q]));
        }
        assert forall|j: int| 0 <= j < pend.len() implies awaits_content(#[trigger] pend[j], mappings) by {
            lemma_pending_awaits(sources, mappings, j);
        }
        lemma_content_law(mappings, cols, free, pend, keys, n as int, chosen);
    }
}

/// A free target is the index of a template column that no mapping targets.
proof fn lemma_free_targets(cols: Seq<TemplateColumnView>, mappings: Seq<HeaderMappingView>, t: usize)
    requires
        free_targets_of(cols, mappings).contains(t),
    ensures
        !is_taken(mappings, t),
        exists|j: int| 0 <= j < cols.len() && (#[trigger] cols[j]).index == t,
    decreases cols.len(),
{
    let prev = free_targets_of(cols.drop_last(), mappings);
    let f = free_targets_of(cols, mappings);
    let q = choose|q: int| 0 <= q < f.len() && f[q] == t;
    if q < prev.len() {
        assert(prev[q] == t);
        lemma_free_targets(cols.drop_last(), mappings, t);
        let j = choose|j: int| 0 <= j < cols.drop_last().len() && (#[trigger] cols.drop_last()[j]).index == t;
        assert(cols[j] == cols.drop_last()[j]);
    } else {
        assert(cols[cols.len() - 1].index == t);
    }
}

/// Content matches take free columns: where the mappings entering the content
/// stage hold no content match and no two are for one source column, every
/// mapping that comes out of it as a content match with a target targets a
/// template column that no mapping targeted before.
pub proof fn content_matches_take_free_columns(
    mappings: Seq<HeaderMappingView>,
    cols: Seq<TemplateColumnView>,
    sources: Seq<SourceColumnView>,
    keys: Seq<Seq<u32>>,
)
    requires
        distinct_sources(mappings),
        forall|k: int| 0 <= k < mappings.len() ==> (#[trigger] mappings[k]).source != MappingSource::Content,
        cols.len() <= usize::MAX,
        sources.len() <= usize::MAX,
    ensures
        forall|k: int|
            0 <= k < content_stage(mappings, cols, sources, keys).len() && (#[trigger] content_stage(
                mappings,
                cols,
                sources,
                keys,
            )[k]).source == MappingSource::Content && content_stage(mappings, cols, sources, keys)[k].target_column_index is Some
                ==> !is_taken(mappings, content_stage(mappings, cols, sources, keys)[k].target_column_index.unwrap())
                && exists|j: int|
                0 <= j < cols.len() && (#[trigger] cols[j]).index == content_stage(
                    mappings,
                    cols,
                    sources,
                    keys,
                )[k].target_column_index.unwrap(),
{
    let m3 = content_stage(mappings, cols, sources, keys);
    let free = free_targets_of(cols, mappings);
    let pend = content_pending(sources, mappings);
    if free.len() > 0 && pend.len() > 0 {
        lemma_content_pending_len(sources, mappings);
        let n = if pend.len() <= keys.len() {
            pend.len()
        } else {
            keys.len()
        };
        let steps = content_steps(mappings, cols, free, pend, keys, n as int);
        lemma_content_steps_free(mappings, cols, free, pend, keys, n as int);
        crate::seqs::lemma_priority_order_exists(score_keys(steps.1));
        let order = choose|o: Seq<usize>| is_priority_order(o, score_keys(steps.1));
        greedy_is_maximal(steps.1, order);
        let chosen = greedy_pick(in_order(steps.1, order));
        assert forall|q: int| 0 <= q < chosen.len() implies free.contains(
            #[trigger] chosen[q].target_column_index,
        ) by {
            assert(chosen.contains(chosen[q]));
            assert(steps.1.contains(chosen[q]));
        }
        assert forall|j: int| 0 <= j < pend.len() implies awaits_content(#[trigger] pend[j], mappings) by {
            lemma_pending_awaits(sources, mappings, j);
        }
        lemma_content_steps(mappings, cols, free, pend, keys, n as int);
        assert forall|k: int|
            0 <= k < m3.len() && (#[trigger] m3[k]).source == MappingSource::Content
                && m3[k].target_column_index is Some implies !is_taken(
            mappings,
            m3[k].target_column_index.unwrap(),
        ) && exists|j: int| 0 <= j < cols.len() && (#[trigger] cols[j]).index == m3[k].target_column_index.unwrap() by {
            let st = steps.0;
            assert(m3[k] == content_applied(st[k], chosen));
            let t = m3[k].target_column_index.unwrap();
            if st[k].source == MappingSource::Content {
                lemma_applied_target(st[k], chosen);
                let q = choose|q: int|
                    0 <= q < chosen.len() && (#[trigger] chosen[q]).source_column_index
                        == st[k].source_column_index && chosen[q].target_column_index == t;
                lemma_free_targets(cols, mappings, t);
            } else {
                assert(m3[k] == st[k]);
            }
        }
    } else {
        assert(m3 == mappings);
    }
}

/// Every column waiting for the content stage is one of the source columns.
proof fn lemma_pending_from_sources(sources: Seq<SourceColumnView>, mappings: Seq<HeaderMappingView>)
    ensures
        forall|j: int|
            0 <= j < content_pending(sources, mappings).len() ==> exists|i: int|
                0 <= i < sources.len() && sources[i] == #[trigger] content_pending(sources, mappings)[j],
    decreases sources.len(),
{
    if sources.len() > 0 {
        let init = sources.drop_last();
        lemma_pending_from_sources(init, mappings);
        let prev = content_pending(init, mappings);
        let pend = content_pending(sources, mappings);
        assert forall|j: int| 0 <= j < pend.len() implies exists|i: int|
            0 <= i < sources.len() && sources[i] == #[trigger] pend[j] by {
            if j < prev.len() {
                assert(pend[j] == prev[j]);
                let i = choose|i: int| 0 <= i < init.len() && init[i] == prev[j];
                assert(sources[i] == init[i]);
            } else {
                assert(pend[j] == sources[sources.len() - 1]);
            }
        }
    }
}

/// The columns waiting for the content stage have distinct indexes where the
/// source columns do.
proof fn lemma_pending_distinct(sources: Seq<SourceColumnView>, mappings: Seq<HeaderMappingView>)
    requires
        forall|i: int, j: int|
            0 <= i < j < sources.len() ==> #[trigger] sources[i].index != #[trigger] sources[j].index,
    ensures
        forall|a: int, b: int|
            0 <= a < b < content_pending(sources, mappings).len() ==> #[trigger] content_pending(
                sources,
                mappings,
            )[a].index != #[trigger] content_pending(sources, mappings)[b].index,
    decreases sources.len(),
{
    if sources.len() > 0 {
        let init = sources.drop_last();
        assert forall|i: int, j: int|
            0 <= i < j < init.len() implies #[trigger] init[i].index != #[trigger] init[j].index by {
            assert(init[i] == sources[i]);
            assert(init[j] == sources[j]);
        }
        lemma_pending_distinct(init, mappings);
        lemma_pending_from_sources(init, mappings);
        let prev = content_pending(init, mappings);
        let pend = content_pending(sources, mappings);
        assert forall|a: int, b: int| 0 <= a < b < pend.len() implies #[trigger] pend[a].index
            != #[trigger] pend[b].index by {
            if b < prev.len() {
                assert(pend[a] == prev[a]);
                assert(pend[b] == prev[b]);
            } else {
                assert(pend[a] == prev[a]);
                assert(pend[b] == sources[sources.len() - 1]);
                let i = choose|i: int| 0 <= i < init.len() && init[i] == prev[a];
                assert(sources[i] == init[i]);
            }
        }
    }
}

/// `src` is the index of one of the first `n` waiting columns.
pub open spec fn asked_before(pend: Seq<SourceColumnView>, n: int, src: usize) -> bool {
    exists|j: int| 0 <= j < n && pend[j].index == src
}

/// What the content steps leave behind: each mapping they made a content match
/// holds candidates whose best reaches the content threshold, and every
/// proposal for its source column is that best candidate.
proof fn lemma_content_steps_link(
    mappings: Seq<HeaderMappingView>,
    cols: Seq<TemplateColumnView>,
    free: Seq<usize>,
    pend: Seq<SourceColumnView>,
    keys: Seq<Seq<u32>>,
    n: int,
)
    requires
        distinct_sources(mappings),
        0 <= n <= pend.len(),
        forall|j: int| 0 <= j < pend.len() ==> awaits_content(#[trigger] pend[j], mappings),
        forall|a: int, b: int| 0 <= a < b < pend.len() ==> #[trigger] pend[a].index != #[trigger] pend[b].index,
        forall|k: int| 0 <= k < mappings.len() ==> (#[trigger] mappings[k]).source != MappingSource::Content,
    ensures
        forall|q: int|
            0 <= q < content_steps(mappings, cols, free, pend, keys, n).1.len() ==> asked_before(
                pend,
                n,
                (#[trigger] content_steps(mappings, cols, free, pend, keys, n).1[q]).source_column_index,
            ),
        forall|k: int|
            0 <= k < mappings.len() && (#[trigger] content_steps(mappings, cols, free, pend, keys, n).0[k]).source
                == MappingSource::Content ==> {
                let st = content_steps(mappings, cols, free, pend, keys, n);
                &&& st.0[k].candidates.len() > 0
                &&& st.0[k].candidates[0].score >= CONTENT_THRESHOLD
                &&& forall|q: int|
                    0 <= q < st.1.len() && #[trigger] st.1[q].source_column_index == st.0[k].source_column_index
                        ==> st.1[q].target_column_index == st.0[k].candidates[0].template_column_index
                        && st.1[q].score == st.0[k].candidates[0].score
            },
        forall|k: int|
            0 <= k < mappings.len() && (#[trigger] content_steps(mappings, cols, free, pend, keys, n).0[k]).source
                != MappingSource::Content ==> !asked_before(
                pend,
                n,
                content_steps(mappings, cols, free, pend, keys, n).0[k].source_column_index,
            ) || forall|q: int|
                0 <= q < content_steps(mappings, cols, free, pend, keys, n).1.len() ==> (#[trigger] content_steps(
                    mappings,
                    cols,
                    free,
                    pend,
                    keys,
                    n,
                ).1[q]).source_column_index != content_steps(mappings, cols, free, pend, keys, n).0[k].source_column_index,
    decreases n,
{
    lemma_content_steps(mappings, cols, free, pend, keys, n);
    if n > 0 {
        lemma_content_steps_link(mappings, cols, free, pend, keys, n - 1);
        lemma_content_steps(mappings, cols, free, pend, keys, n - 1);
        let prev = content_steps(mappings, cols, free, pend, keys, n - 1);
        let now = content_steps(mappings, cols, free, pend, keys, n);
        let s = pend[n - 1];
        let p = |m: HeaderMappingView| m.source_column_index == s.index;
        lemma_first_match_props(prev.0, p);
        // earlier proposals are for earlier columns, none of them `s`
        assert forall|q: int| 0 <= q < prev.1.len() implies (#[trigger] prev.1[q]).source_column_index
            != s.index by {
            let j = choose|j: int| 0 <= j < n - 1 && pend[j].index == prev.1[q].source_column_index;
        }
        assert forall|q: int| 0 <= q < now.1.len() implies asked_before(
            pend,
            n,
            (#[trigger] now.1[q]).source_column_index,
        ) by {
            if q < prev.1.len() {
                assert(now.1[q] == prev.1[q]);
                let j = choose|j: int| 0 <= j < n - 1 && pend[j].index == prev.1[q].source_column_index;
            } else {
                assert(pend[n - 1].index == now.1[q].source_column_index);
            }
        }
        assert forall|k: int| 0 <= k < mappings.len() && (#[trigger] now.0[k]).source
            == MappingSource::Content implies {
            &&& now.0[k].candidates.len() > 0
            &&& now.0[k].candidates[0].score >= CONTENT_THRESHOLD
            &&& forall|q: int|
                0 <= q < now.1.len() && #[trigger] now.1[q].source_column_index == now.0[k].source_column_index
                    ==> now.1[q].target_column_index == now.0[k].candidates[0].template_column_index
                    && now.1[q].score == now.0[k].candidates[0].score
        } by {
            match mapping_for(prev.0, s.index) {
                Some(w) => {
                    if k != w {
                        assert(now.0[k] == prev.0[k]);
                        assert forall|q: int|
                            0 <= q < now.1.len() && #[trigger] now.1[q].source_column_index
                                == now.0[k].source_column_index implies now.1[q].target_column_index
                            == now.0[k].candidates[0].template_column_index && now.1[q].score
                            == now.0[k].candidates[0].score by {
                            if q < prev.1.len() {
                                assert(now.1[q] == prev.1[q]);
                            } else {
                                // the new proposal is for `s`, whose mapping is `w`
                                assert(prev.0[w].source_column_index == s.index);
                                assert(now.1[q].source_column_index == s.index);
                                if prev.0[k].source_column_index == s.index {
                                    assert(prev.0[k].source_column_index == mappings[k].source_column_index);
                                    assert(prev.0[w].source_column_index == mappings[w].source_column_index);
                                    if k < w {
                                        assert(mappings[k].source_column_index != mappings[w].source_column_index);
                                    } else {
                                        assert(mappings[w].source_column_index != mappings[k].source_column_index);
                                    }
                                }
                            }
                        }
                    } else {
                        let c = content_candidates_of(cols, keys[n - 1], free, tokens_of(kind_of(sample_of(s))));
                        if !(c.len() > 0 && c[0].score >= CONTENT_THRESHOLD) {
                            assert(now.0[k] == prev.0[k]);
                            assert(now.1 == prev.1);
                        }
                    }
                },
                None => {
                    assert(now.0[k] == prev.0[k]);
                },
            }
        }
        assert forall|k: int| 0 <= k < mappings.len() && (#[trigger] now.0[k]).source
            != MappingSource::Content implies !asked_before(pend, n, now.0[k].source_column_index)
            || forall|q: int|
            0 <= q < now.1.len() ==> (#[trigger] now.1[q]).source_column_index
                != now.0[k].source_column_index by {
            match mapping_for(prev.0, s.index) {
                Some(w) => {
                    if k != w {
                        assert(now.0[k] == prev.0[k]);
                        if asked_before(pend, n, now.0[k].source_column_index) {
                            if now.0[k].source_column_index == s.index {
                                assert(prev.0[k].source_column_index == mappings[k].source_column_index);
                                assert(prev.0[w].source_column_index == mappings[w].source_column_index);
                                if k < w {
                                    assert(mappings[k].source_column_index != mappings[w].source_column_index);
                                } else {
                                    assert(mappings[w].source_column_index != mappings[k].source_column_index);
                                }
                            } else {
                                let j = choose|j: int| 0 <= j < n && pend[j].index == now.0[k].source_column_index;
                                assert(j < n - 1);
                                assert(asked_before(pend, n - 1, now.0[k].source_column_index));
                            }
                        }
                    } else {
                        assert(now.0[k] == prev.0[k]);
                        assert(now.1 == prev.1);
                    }
                },
                None => {
                    assert(now.0 == prev.0);
                    assert(now.1 == prev.1);
                    if asked_before(pend, n, now.0[k].source_column_index) {
                        if now.0[k].source_column_index == s.index {
                            assert(p(mappings[k]));
                            assert(prev.0[k].source_column_index == mappings[k].source_column_index);
                        } else {
                            let j = choose|j: int| 0 <= j < n && pend[j].index == now.0[k].source_column_index;
                            assert(j < n - 1);
                        }
                    }
                },
            }
        }
    }
}

/// Content matches reach the content threshold: where the source columns have
/// distinct indexes, and the mappings entering the content stage hold no
/// content match and no two are for one source column, every mapping that
/// comes out of it as a content match with a target has a score at or above
/// the content threshold.
pub proof fn content_matches_reach_threshold(
    mappings: Seq<HeaderMappingView>,
    cols: Seq<TemplateColumnView>,
    sources: Seq<SourceColumnView>,
    keys: Seq<Seq<u32>>,
)
    requires
        forall|i: int, j: int|
            0 <= i < j < sources.len() ==> #[trigger] sources[i].index != #[trigger] sources[j].index,
        distinct_sources(mappings),
        forall|k: int| 0 <= k < mappings.len() ==> (#[trigger] mappings[k]).source != MappingSource::Content,
        cols.len() <= usize::MAX,
        sources.len() <= usize::MAX,
    ensures
        forall|k: int|
            0 <= k < content_stage(mappings, cols, sources, keys).len() && (#[trigger] content_stage(
                mappings,
                cols,
                sources,
                keys,
            )[k]).source == MappingSource::Content && content_stage(mappings, cols, sources, keys)[k].target_column_index is Some
                ==> content_stage(mappings, cols, sources, keys)[k].score is Some && content_stage(
                mappings,
                cols,
                sources,
                keys,
            )[k].score.unwrap() >= CONTENT_THRESHOLD,
{
    let m3 = content_stage(mappings, cols, sources, keys);
    let free = free_targets_of(cols, mappings);
    let pend = content_pending(sources, mappings);
    if free.len() > 0 && pend.len() > 0 {
        lemma_content_pending_len(sources, mappings);
        lemma_pending_distinct(sources, mappings);
        assert forall|j: int| 0 <= j < pend.len() implies awaits_content(#[trigger] pend[j], mappings) by {
            lemma_pending_awaits(sources, mappings, j);
        }
        let n = if pend.len() <= keys.len() {
            pend.len()
        } else {
            keys.len()
        };
        let steps = content_steps(mappings, cols, free, pend, keys, n as int);
        lemma_content_steps(mappings, cols, free, pend, keys, n as int);
        lemma_content_steps_link(mappings, cols, free, pend, keys, n as int);
        lemma_content_steps_free(mappings, cols, free, pend, keys, n as int);
        crate::seqs::lemma_priority_order_exists(score_keys(steps.1));
        let order = choose|o: Seq<usize>| is_priority_order(o, score_keys(steps.1));
        greedy_is_maximal(steps.1, order);
        let chosen = greedy_pick(in_order(steps.1, order));
        let st = steps.0;
        assert forall|k: int|
            0 <= k < m3.len() && (#[trigger] m3[k]).source == MappingSource::Content
                && m3[k].target_column_index is Some implies m3[k].score is Some
            && m3[k].score.unwrap() >= CONTENT_THRESHOLD by {
            assert(m3[k] == content_applied(st[k], chosen));
            if st[k].source == MappingSource::Content {
                let src = st[k].source_column_index;
                lemma_first_match_props(chosen, |a: Assignment| a.source_column_index == src);
                match assignment_for(chosen, src) {
                    Some(q) => {
                        let a = chosen[q];
                        assert(chosen.contains(a));
                        assert(steps.1.contains(a));
                        let q2 = choose|q2: int| 0 <= q2 < steps.1.len() && steps.1[q2] == a;
                        assert(steps.1[q2].source_column_index == src);
                        let cands = st[k].candidates;
                        lemma_first_match_props(
                            cands,
                            |c: MatchCandidateView| c.template_column_index == a.target_column_index,
                        );
                        assert(cands[0].template_column_index == a.target_column_index);
                    },
                    None => {},
                }
            } else {
                assert(m3[k] == st[k]);
            }
        }
    } else {
        assert(m3 == mappings);
    }
}

proof fn lemma_content_pending_len(sources: Seq<SourceColumnView>, mappings: Seq<HeaderMappingView>)
    ensures
        content_pending(sources, mappings).len() <= sources.len(),
    decreases sources.len(),
{
    if sources.len() > 0 {
        lemma_content_pending_len(sources.drop_last(), mappings);
    }
}

/// The mappings of the header stage, one per source column, in order (what
/// `HeaderMatcher::match_by_header` returns).
pub open spec fn header_stage_of(
    sources: Seq<SourceColumnView>,
    cols: Seq<TemplateColumnView>,
    hits: Seq<Option<HistoryHit>>,
    alias: Map<Seq<char>, Seq<char>>,
) -> Seq<HeaderMappingView> {
    Seq::new(
        sources.len(),
        |i: int|
            initial_mapping(
                sources[i],
                header_match(
                    sources[i],
                    cols.map_values(|c: TemplateColumnView| column_triple(c)),
                    hit_at(hits, i),
                    alias,
                ),
            ),
    )
}

/// The embedding stage changes only the source and the candidates of mappings.
proof fn lemma_embedding_stage_keeps(
    mappings: Seq<HeaderMappingView>,
    cols: Seq<TemplateColumnView>,
    pending: Seq<usize>,
    scores: Seq<Seq<u32>>,
    n: int,
)
    ensures
        embedding_stage(mappings, cols, pending, scores, n).len() == mappings.len(),
        forall|k: int|
            0 <= k < mappings.len() ==> (#[trigger] embedding_stage(
                mappings,
                cols,
                pending,
                scores,
                n,
            )[k]).source_column_index == mappings[k].source_column_index && embedding_stage(
                mappings,
                cols,
                pending,
                scores,
                n,
            )[k].target_column_index == mappings[k].target_column_index,
        forall|k: int|
            0 <= k < mappings.len() && mappings[k].source != MappingSource::Content ==> (
            #[trigger] embedding_stage(mappings, cols, pending, scores, n)[k]).source
                != MappingSource::Content,
    decreases n,
{
    if n > 0 {
        lemma_embedding_stage_keeps(mappings, cols, pending, scores, n - 1);
        let prev = embedding_stage(mappings, cols, pending, scores, n - 1);
        lemma_first_match_props(prev, |m: HeaderMappingView| m.source_column_index == pending[n - 1]);
    }
}

proof fn lemma_proposals_len(mappings: Seq<HeaderMappingView>)
    ensures
        proposals(mappings).len() <= mappings.len(),
    decreases mappings.len(),
{
    if mappings.len() > 0 {
        lemma_proposals_len(mappings.drop_last());
    }
}

/// The header stage makes no content match.
proof fn lemma_header_stage_no_content(
    sources: Seq<SourceColumnView>,
    cols: Seq<TemplateColumnView>,
    hits: Seq<Option<HistoryHit>>,
    alias: Map<Seq<char>, Seq<char>>,
)
    ensures
        forall|k: int|
            0 <= k < sources.len() ==> (#[trigger] header_stage_of(sources, cols, hits, alias)[k]).source
                != MappingSource::Content,
{
    reveal(header_match);
}

/// Matching is one-to-one, and content inference respects what the header
/// stages decided: for source columns with distinct indexes, after the header,
/// embedding and assignment stages no two mappings target one template column;
/// the content stage then leaves every mapping that has a target unchanged, and
/// still no two mappings share a target, and a content match only takes a
/// column that no mapping targeted before it, with a score at or above the
/// content threshold. `hits[i]` is the history hit of
/// source column `i`; `embedding_scores[j][c]` and `content_scores[j][c]` are
/// the scores of template column `c` for the `j`-th column each stage asks about.
pub proof fn matching_is_one_to_one(
    sources: Seq<SourceColumnView>,
    cols: Seq<TemplateColumnView>,
    hits: Seq<Option<HistoryHit>>,
    alias: Map<Seq<char>, Seq<char>>,
    embedding_scores: Seq<Seq<u32>>,
    content_scores: Seq<Seq<u32>>,
)
    requires
        forall|i: int, j: int|
            0 <= i < j < sources.len() ==> #[trigger] sources[i].index != #[trigger] sources[j].index,
        cols.len() <= usize::MAX,
        sources.len() <= usize::MAX,
    ensures
        ({
            let m0 = header_stage_of(sources, cols, hits, alias);
            let pending = pending_indexes(m0);
            let n = if pending.len() <= embedding_scores.len() {
                pending.len() as int
            } else {
                embedding_scores.len() as int
            };
            let m1 = embedding_stage(m0, cols, pending, embedding_scores, n);
            let m2 = header_assigned(m1);
            let m3 = content_stage(m2, cols, sources, content_scores);
            &&& distinct_targets(m2)
            &&& keeps_taken(m2, m3)
            &&& distinct_targets(m3)
            &&& forall|k: int|
                0 <= k < m3.len() && (#[trigger] m3[k]).source == MappingSource::Content
                    && m3[k].target_column_index is Some ==> !is_taken(
                    m2,
                    m3[k].target_column_index.unwrap(),
                ) && m3[k].score is Some && m3[k].score.unwrap() >= CONTENT_THRESHOLD
        }),
{
    let m0 = header_stage_of(sources, cols, hits, alias);
    let pending = pending_indexes(m0);
    let n = if pending.len() <= embedding_scores.len() {
        pending.len() as int
    } else {
        embedding_scores.len() as int
    };
    let m1 = embedding_stage(m0, cols, pending, embedding_scores, n);
    lemma_embedding_stage_keeps(m0, cols, pending, embedding_scores, n);
    assert forall|i: int, j: int| 0 <= i < j < m1.len() implies #[trigger] m1[i].source_column_index
        != #[trigger] m1[j].source_column_index by {
        assert(m1[i].source_column_index == m0[i].source_column_index);
        assert(m1[j].source_column_index == m0[j].source_column_index);
    }
    assert forall|i: int| 0 <= i < m1.len() implies (#[trigger] m1[i]).target_column_index is None by {
        assert(m1[i].target_column_index == m0[i].target_column_index);
    }
    let props = proposals(m1);
    lemma_proposals_len(m1);
    crate::seqs::lemma_priority_order_exists(score_keys(props));
    let order = choose|o: Seq<usize>| is_priority_order(o, score_keys(props));
    greedy_is_one_to_one(props, order);
    let chosen = greedy_pick(in_order(props, order));
    lemma_applied_distinct(m1, chosen);
    let m2 = header_assigned(m1);
    assert(m2 == m1.map_values(|m: HeaderMappingView| applied(m, chosen)));
    assert forall|i: int, j: int| 0 <= i < j < m2.len() implies #[trigger] m2[i].source_column_index
        != #[trigger] m2[j].source_column_index by {
        lemma_applied_keeps_source(m1[i], chosen);
        lemma_applied_keeps_source(m1[j], chosen);
    }
    content_never_steals(m2, cols, sources, content_scores);
    lemma_header_stage_no_content(sources, cols, hits, alias);
    assert forall|k: int| 0 <= k < m2.len() implies (#[trigger] m2[k]).source
        != MappingSource::Content by {
        assert(m1[k].source != MappingSource::Content);
    }
    content_matches_take_free_columns(m2, cols, sources, content_scores);
    content_matches_reach_threshold(m2, cols, sources, content_scores);
}

proof fn lemma_applied_keeps_source(m: HeaderMappingView, chosen: Seq<Assignment>)
    ensures
        applied(m, chosen).source_column_index == m.source_column_index,
{
    lemma_first_match_props(chosen, |a: Assignment| a.source_column_index == m.source_column_index);
}

} // verus!
