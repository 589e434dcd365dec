//! Template column embeddings kept between imports, one entry per template,
//! valid for the model version that computed them.
use vstd::prelude::*;

use crate::excel::xml_steps::same_text;

verus! {

/// The column vectors of a template as one model version computed them.
#[derive(Debug, Clone)]
pub struct CachedTemplateEmbedding<V> {
    pub template_id: String,
    pub model_version: String,
    pub vectors: Vec<V>,
}

/// Cached template embeddings, at most one entry per template id.
#[derive(Debug)]
pub struct TemplateEmbeddingCache<V> {
    inner: Vec<CachedTemplateEmbedding<V>>,
}

/// The vectors cached for `template_id`, where they were computed by
/// `model_version`.
pub open spec fn cached_vectors<V>(
    cache: Map<Seq<char>, (Seq<char>, Seq<V>)>,
    template_id: Seq<char>,
    model_version: Seq<char>,
) -> Option<Seq<V>> {
    if cache.contains_key(template_id) && cache[template_id].0 == model_version {
        Some(cache[template_id].1)
    } else {
        None
    }
}

impl<V> TemplateEmbeddingCache<V> {
    #[verifier::type_invariant]
    spec fn ids_distinct(self) -> bool {
        forall|i: int, j: int|
            0 <= i < j < self.inner@.len() ==> (#[trigger] self.inner@[i]).template_id@
                != (#[trigger] self.inner@[j]).template_id@
    }

    /// The cache as a map from template id to (model version, vectors).
    pub closed spec fn view(&self) -> Map<Seq<char>, (Seq<char>, Seq<V>)> {
        Map::new(
            |id: Seq<char>|
                exists|i: int| 0 <= i < self.inner@.len() && #[trigger] self.inner@[i].template_id@ == id,
            |id: Seq<char>|
                {
                    let i = choose|i: int|
                        0 <= i < self.inner@.len() && #[trigger] self.inner@[i].template_id@ == id;
                    (self.inner@[i].model_version@, self.inner@[i].vectors@)
                },
        )
    }

    proof fn lemma_view_at(&self, i: int)
        requires
            self.ids_distinct(),
            0 <= i < self.inner@.len(),
        ensures
            self.view().contains_key(self.inner@[i].template_id@),
            self.view()[self.inner@[i].template_id@] == (
                self.inner@[i].model_version@,
                self.inner@[i].vectors@,
            ),
    {
        let id = self.inner@[i].template_id@;
        assert(self.inner@[i].template_id@ == id);
        let j = choose|j: int| 0 <= j < self.inner@.len() && #[trigger] self.inner@[j].template_id@ == id;
        if j != i {
            if j < i {
                assert(self.inner@[j].template_id@ != self.inner@[i].template_id@);
            } else {
                assert(self.inner@[i].template_id@ != self.inner@[j].template_id@);
            }
        }
    }

    pub fn new() -> (r: Self)
        ensures
            r.view() == Map::<Seq<char>, (Seq<char>, Seq<V>)>::empty(),
    {
        let r = TemplateEmbeddingCache { inner: Vec::new() };
        assert(r.view() =~= Map::<Seq<char>, (Seq<char>, Seq<V>)>::empty());
        r
    }

    /// The vectors cached for `template_id`, if they were computed by
    /// `model_version`.
    pub fn get(&self, template_id: &str, model_version: &str) -> (r: Option<&[V]>)
        ensures
            match cached_vectors(self.view(), template_id@, model_version@) {
                Some(vs) => r matches Some(s) && s@ == vs,
                None => r is None,
            },
    {
        proof {
            use_type_invariant(self);
        }
        let mut i: usize = 0;
        while i < self.inner.len()
            invariant
                i <= self.inner@.len(),
                self.ids_distinct(),
                forall|k: int| 0 <= k < i ==> self.inner@[k].template_id@ != template_id@,
            decreases self.inner@.len() - i,
        {
            if same_text(self.inner[i].template_id.as_str(), template_id) {
                proof {
                    self.lemma_view_at(i as int);
                }
                if same_text(self.inner[i].model_version.as_str(), model_version) {
                    return Some(self.inner[i].vectors.as_slice());
                } else {
                    return None;
                }
            }
            i = i + 1;
        }
        assert(!self.view().contains_key(template_id@));
        None
    }

    /// Caches `cached` for its template, in place of what was cached for it.
    pub fn insert(&mut self, cached: CachedTemplateEmbedding<V>)
        ensures
            final(self).view() == old(self).view().insert(
                cached.template_id@,
                (cached.model_version@, cached.vectors@),
            ),
    {
        proof {
            use_type_invariant(&*self);
        }
        let ghost id = cached.template_id@;
        let ghost entry = (cached.model_version@, cached.vectors@);
        let ghost before = self.view();
        let ghost old_entries = self.inner@;
        assert(forall|a: int, b: int|
            0 <= a < b < old_entries.len() ==> (#[trigger] old_entries[a]).template_id@
                != (#[trigger] old_entries[b]).template_id@);
        let mut i: usize = 0;
        while i < self.inner.len() && !same_text(
            self.inner[i].template_id.as_str(),
            cached.template_id.as_str(),
        )
            invariant
                i <= self.inner@.len(),
                forall|k: int| 0 <= k < i ==> self.inner@[k].template_id@ != id,
                id == cached.template_id@,
            decreases self.inner@.len() - i,
        {
            i = i + 1;
        }
        let mut entries: Vec<CachedTemplateEmbedding<V>> = Vec::new();
        std::mem::swap(&mut entries, &mut self.inner);
        assert(entries@ == old_entries);
        if i < entries.len() {
            entries.set(i, cached);
        } else {
            entries.push(cached);
        }
        proof {
            assert forall|a: int, b: int|
                0 <= a < b < entries@.len() implies (#[trigger] entries@[a]).template_id@
                != (#[trigger] entries@[b]).template_id@ by {
                if a != i as int && b != i as int {
                    assert(entries@[a] == old_entries[a]);
                    assert(entries@[b] == old_entries[b]);
                }
            }
        }
        *self = TemplateEmbeddingCache { inner: entries };
        proof {
            assert forall|k: Seq<char>| #[trigger]
                self.view().contains_key(k) == before.insert(id, entry).contains_key(k) by {
                if self.view().contains_key(k) {
                    let j = choose|j: int| 0 <= j < self.inner@.len() && #[trigger] self.inner@[j].template_id@ == k;
                    if j != i as int {
                        assert(old_entries[j].template_id@ == k);
                    }
                }
                if before.contains_key(k) {
                    let j = choose|j: int| 0 <= j < old_entries.len() && #[trigger] old_entries[j].template_id@ == k;
                    if j != i as int {
                        assert(self.inner@[j].template_id@ == k);
                    }
                }
                if k == id {
                    assert(self.inner@[i as int].template_id@ == id);
                }
            }
            assert forall|k: Seq<char>| #[trigger] self.view().contains_key(k) implies self.view()[k]
                == before.insert(id, entry)[k] by {
                let j = choose|j: int| 0 <= j < self.inner@.len() && #[trigger] self.inner@[j].template_id@ == k;
                self.lemma_view_at(j);
                if j != i as int {
                    assert(self.inner@[j] == old_entries[j]);
                }
            }
            assert(self.view() =~= before.insert(id, entry));
        }
    }
}

impl<V> Default for TemplateEmbeddingCache<V> {
    fn default() -> (r: Self)
        ensures
            r.view() == Map::<Seq<char>, (Seq<char>, Seq<V>)>::empty(),
    {
        Self::new()
    }
}

/// What is read back from the cache after an insert: the inserted vectors for
/// their template under their model version, nothing for it under another
/// version, and what was there before for every other template.
pub proof fn cache_read_after_write<V>(
    before: Map<Seq<char>, (Seq<char>, Seq<V>)>,
    template_id: Seq<char>,
    model_version: Seq<char>,
    vectors: Seq<V>,
    other_id: Seq<char>,
    version: Seq<char>,
)
    ensures
        cached_vectors(
            before.insert(template_id, (model_version, vectors)),
            template_id,
            model_version,
        ) == Some(vectors),
        version != model_version ==> cached_vectors(
            before.insert(template_id, (model_version, vectors)),
            template_id,
            version,
        ) is None,
        other_id != template_id ==> cached_vectors(
            before.insert(template_id, (model_version, vectors)),
            other_id,
            version,
        ) == cached_vectors(before, other_id, version),
{
}

} // verus!
