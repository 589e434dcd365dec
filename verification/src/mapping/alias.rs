//! Alias dictionary: maps a normalized alias header to its normalized canonical header.
//! The table is read from JSON; matcher code does not hardcode aliases.
use vstd::prelude::*;

use crate::mapping::normalizer::{normalize_header, normalized};

verus! {

/// The alias table that ships with the application.
pub const BUILTIN_JSON: &'static str = r#"{
  "用户姓名": "姓名",
  "员工姓名": "姓名",
  "人员姓名": "姓名",
  "姓名": "姓名",
  "手机号": "手机号码",
  "联系电话": "手机号码",
  "移动电话": "手机号码",
  "手机": "手机号码",
  "电话": "手机号码",
  "手机号码": "手机号码",
  "身份证": "身份证号",
  "身份证号码": "身份证号",
  "证件号码": "身份证号",
  "证件号": "身份证号",
  "身份证号": "身份证号",
  "部门": "所属部门",
  "部门名称": "所属部门",
  "所在部门": "所属部门",
  "所属单位": "所属单位",
  "组织机构": "所属单位",
  "单位名称": "所属单位"
}"#;

#[verifier::external_type_specification]
#[verifier::external_body]
pub struct ExJsonError(serde_json::Error);

/// What serde_json reads from `json` when asked for a map from strings to strings:
/// `None` where it reports an error, else the object's members (a later duplicate
/// key replacing an earlier one).
pub uninterp spec fn json_string_map(json: Seq<char>) -> Option<Map<Seq<char>, Seq<char>>>;

/// The pairs `entries` list exactly the map `m`, each key once.
pub open spec fn lists_map(entries: Seq<(String, String)>, m: Map<Seq<char>, Seq<char>>) -> bool {
    &&& forall|i: int, j: int|
        0 <= i < j < entries.len() ==> (#[trigger] entries[i]).0@ != (#[trigger] entries[j]).0@
    &&& forall|i: int|
        0 <= i < entries.len() ==> m.contains_key((#[trigger] entries[i]).0@) && m[entries[i].0@]
            == entries[i].1@
    &&& forall|k: Seq<char>|
        m.contains_key(k) ==> exists|i: int| 0 <= i < entries.len() && (#[trigger] entries[i]).0@ == k
}

/// serde_json's `from_str` into a `HashMap<String, String>`, handed back as the
/// map's entries in its iteration order. Trusted: the call succeeds exactly when
/// `json_string_map` is defined, and the entries list that map. Their order is
/// left unsaid: it is the hash map's, which a per-process seed decides.
#[verifier::external_body]
fn parse_string_map(json: &str) -> (r: Result<Vec<(String, String)>, serde_json::Error>)
    ensures
        r is Ok <==> json_string_map(json@) is Some,
        r matches Ok(entries) ==> lists_map(entries@, json_string_map(json@).unwrap()),
{
    let map: std::collections::HashMap<String, String> = serde_json::from_str(json)?;
    Ok(map.into_iter().collect())
}

/// The map that a list of pairs with distinct keys stands for.
pub open spec fn entry_map(entries: Seq<(String, String)>) -> Map<Seq<char>, Seq<char>> {
    Map::new(
        |k: Seq<char>| exists|i: int| 0 <= i < entries.len() && (#[trigger] entries[i]).0@ == k,
        |k: Seq<char>|
            entries[choose|i: int| 0 <= i < entries.len() && (#[trigger] entries[i]).0@ == k].1@,
    )
}

/// `dict` is what normalizing both sides of every pair of `raw` gives, where
/// aliases that normalize alike keep the canonical header of one of them.
pub open spec fn built_from(dict: Map<Seq<char>, Seq<char>>, raw: Map<Seq<char>, Seq<char>>) -> bool {
    &&& forall|k: Seq<char>|
        #[trigger] dict.contains_key(k) <==> exists|a: Seq<char>|
            raw.contains_key(a) && #[trigger] normalized(a) == k
    &&& forall|k: Seq<char>|
        #[trigger] dict.contains_key(k) ==> exists|a: Seq<char>|
            raw.contains_key(a) && #[trigger] normalized(a) == k && dict[k] == normalized(raw[a])
}

/// No key occurs twice in `entries`.
pub open spec fn distinct_keys(entries: Seq<(String, String)>) -> bool {
    forall|i: int, j: int|
        0 <= i < j < entries.len() ==> (#[trigger] entries[i]).0@ != (#[trigger] entries[j]).0@
}

proof fn lemma_entry_map_at(entries: Seq<(String, String)>, i: int)
    requires
        distinct_keys(entries),
        0 <= i < entries.len(),
    ensures
        entry_map(entries).contains_key(entries[i].0@),
        entry_map(entries)[entries[i].0@] == entries[i].1@,
{
    let k = entries[i].0@;
    assert(entry_map(entries).contains_key(k));
    let c = choose|p: int| 0 <= p < entries.len() && (#[trigger] entries[p]).0@ == k;
    if c < i {
    } else if i < c {
    }
}

/// Sets `key` to `value`, replacing the pair with that key if there is one.
fn insert_entry(entries: &mut Vec<(String, String)>, key: String, value: String)
    requires
        distinct_keys(old(entries)@),
    ensures
        distinct_keys(final(entries)@),
        entry_map(final(entries)@) == entry_map(old(entries)@).insert(key@, value@),
{
    let ghost before = entries@;
    let mut j: usize = 0;
    while j < entries.len()
        invariant
            j <= entries@.len(),
            entries@ == before,
            before == old(entries)@,
            distinct_keys(before),
            forall|p: int| 0 <= p < j ==> entries@[p].0@ != key@,
        decreases entries@.len() - j,
    {
        if entries[j].0 == key {
            let k2 = entries[j].0.clone();
            entries.set(j, (k2, value));
            proof {
                let after = entries@;
                assert forall|p: int, q: int|
                    0 <= p < q < after.len() implies (#[trigger] after[p]).0@ != (
                    #[trigger] after[q]).0@ by {
                    assert(before[p].0@ != before[q].0@);
                }
                assert forall|k: Seq<char>| #[trigger]
                    entry_map(after).contains_key(k) == entry_map(before).insert(
                        key@,
                        value@,
                    ).contains_key(k) by {
                    if entry_map(before).contains_key(k) {
                        let c = choose|c: int| 0 <= c < before.len() && (#[trigger] before[c]).0@ == k;
                        assert(after[c].0@ == k);
                    }
                    if entry_map(after).contains_key(k) {
                        let c = choose|c: int| 0 <= c < after.len() && (#[trigger] after[c]).0@ == k;
                        assert(before[c].0@ == k);
                    }
                    if k == key@ {
                        assert(after[j as int].0@ == k);
                    }
                }
                assert forall|k: Seq<char>| #[trigger]
                    entry_map(after).contains_key(k) implies entry_map(after)[k] == entry_map(
                        before,
                    ).insert(key@, value@)[k] by {
                    let c = choose|c: int| 0 <= c < after.len() && (#[trigger] after[c]).0@ == k;
                    lemma_entry_map_at(after, c);
                    if k != key@ {
                        lemma_entry_map_at(before, c);
                    }
                }
                assert(entry_map(after) =~= entry_map(before).insert(key@, value@));
            }
            return;
        }
        j = j + 1;
    }
    entries.push((key, value));
    proof {
        let after = entries@;
        let n = before.len() as int;
        assert forall|p: int, q: int|
            0 <= p < q < after.len() implies (#[trigger] after[p]).0@ != (#[trigger] after[q]).0@ by {
            if q < n {
                assert(before[p].0@ != before[q].0@);
            }
        }
        assert forall|k: Seq<char>| #[trigger]
            entry_map(after).contains_key(k) == entry_map(before).insert(key@, value@).contains_key(
                k,
            ) by {
            if entry_map(before).contains_key(k) {
                let c = choose|c: int| 0 <= c < before.len() && (#[trigger] before[c]).0@ == k;
                assert(after[c].0@ == k);
            }
            if entry_map(after).contains_key(k) {
                let c = choose|c: int| 0 <= c < after.len() && (#[trigger] after[c]).0@ == k;
                if c < n {
                    assert(before[c].0@ == k);
                }
            }
            if k == key@ {
                assert(after[n].0@ == k);
            }
        }
        assert forall|k: Seq<char>| #[trigger] entry_map(after).contains_key(k) implies entry_map(
            after,
        )[k] == entry_map(before).insert(key@, value@)[k] by {
            let c = choose|c: int| 0 <= c < after.len() && (#[trigger] after[c]).0@ == k;
            lemma_entry_map_at(after, c);
            if c < n {
                lemma_entry_map_at(before, c);
            }
        }
        assert(entry_map(after) =~= entry_map(before).insert(key@, value@));
    }
}

#[derive(Debug)]
pub struct AliasDictionary {
    entries: Vec<(String, String)>,
}

impl View for AliasDictionary {
    type V = Map<Seq<char>, Seq<char>>;

    closed spec fn view(&self) -> Map<Seq<char>, Seq<char>> {
        entry_map(self.entries@)
    }
}

impl AliasDictionary {
    /// No alias occurs twice.
    #[verifier::type_invariant]
    pub closed spec fn keys_distinct(self) -> bool {
        distinct_keys(self.entries@)
    }

    /// The built-in table (an empty one if it does not parse).
    pub fn builtin() -> (r: Self)
        ensures
            match json_string_map(BUILTIN_JSON@) {
                Some(raw) => built_from(r@, raw),
                None => r@ == Map::<Seq<char>, Seq<char>>::empty(),
            },
    {
        match Self::from_json(BUILTIN_JSON) {
            Ok(dict) => dict,
            Err(_) => Self::default(),
        }
    }

    /// Reads a JSON object of alias → canonical header pairs; both sides are normalized.
    pub fn from_json(json: &str) -> (r: Result<Self, serde_json::Error>)
        ensures
            r is Ok <==> json_string_map(json@) is Some,
            r matches Ok(dict) ==> built_from(dict@, json_string_map(json@).unwrap()),
    {
        let raw = parse_string_map(json)?;
        let ghost m = json_string_map(json@).unwrap();
        let mut entries: Vec<(String, String)> = Vec::new();
        let mut i: usize = 0;
        assert(entry_map(entries@) =~= Map::<Seq<char>, Seq<char>>::empty());
        while i < raw.len()
            invariant
                i <= raw@.len(),
                lists_map(raw@, m),
                distinct_keys(entries@),
                forall|k: Seq<char>|
                    #[trigger] entry_map(entries@).contains_key(k) <==> exists|a: int|
                        0 <= a < i && normalized((#[trigger] raw@[a]).0@) == k,
                forall|k: Seq<char>|
                    #[trigger] entry_map(entries@).contains_key(k) ==> exists|a: int|
                        0 <= a < i && normalized((#[trigger] raw@[a]).0@) == k && entry_map(
                            entries@,
                        )[k] == normalized(raw@[a].1@),
            decreases raw@.len() - i,
        {
            let key = normalize_header(raw[i].0.as_str());
            let value = normalize_header(raw[i].1.as_str());
            let ghost before = entry_map(entries@);
            insert_entry(&mut entries, key, value);
            proof {
                let after = entry_map(entries@);
                assert forall|k: Seq<char>| #[trigger] after.contains_key(k) <==> exists|a: int|
                    0 <= a < i + 1 && normalized((#[trigger] raw@[a]).0@) == k by {
                    if after.contains_key(k) && k != normalized(raw@[i as int].0@) {
                        assert(before.contains_key(k));
                    }
                    if k == normalized(raw@[i as int].0@) {
                        assert(after.contains_key(k));
                    }
                }
                assert forall|k: Seq<char>| #[trigger] after.contains_key(k) implies exists|a: int|
                    0 <= a < i + 1 && normalized((#[trigger] raw@[a]).0@) == k && after[k]
                        == normalized(raw@[a].1@) by {
                    if k != normalized(raw@[i as int].0@) {
                        assert(before.contains_key(k));
                        let a = choose|a: int|
                            0 <= a < i && normalized((#[trigger] raw@[a]).0@) == k && before[k]
                                == normalized(raw@[a].1@);
                    }
                }
            }
            i = i + 1;
        }
        let dict = AliasDictionary { entries };
        proof {
            let d = dict@;
            assert forall|k: Seq<char>|
                #[trigger] d.contains_key(k) <==> exists|a: Seq<char>|
                    m.contains_key(a) && #[trigger] normalized(a) == k by {
                if d.contains_key(k) {
                    let a = choose|a: int| 0 <= a < i && normalized((#[trigger] raw@[a]).0@) == k;
                    assert(m.contains_key(raw@[a].0@));
                }
                if exists|a: Seq<char>| m.contains_key(a) && #[trigger] normalized(a) == k {
                    let a = choose|a: Seq<char>| m.contains_key(a) && #[trigger] normalized(a) == k;
                    let ai = choose|ai: int| 0 <= ai < raw@.len() && (#[trigger] raw@[ai]).0@ == a;
                    assert(normalized(raw@[ai].0@) == k);
                }
            }
            assert forall|k: Seq<char>| #[trigger] d.contains_key(k) implies exists|a: Seq<char>|
                m.contains_key(a) && #[trigger] normalized(a) == k && d[k] == normalized(m[a]) by {
                let a = choose|a: int|
                    0 <= a < i && normalized((#[trigger] raw@[a]).0@) == k && d[k] == normalized(
                        raw@[a].1@,
                    );
                assert(m.contains_key(raw@[a].0@));
                assert(m[raw@[a].0@] == raw@[a].1@);
            }
        }
        Ok(dict)
    }

    /// Reads the dictionary from the text of an alias file; without one, or where
    /// it does not parse, the built-in table.
    pub fn load_or_builtin(text: Option<&str>) -> (r: Self)
        ensures
            match text {
                Some(t) if json_string_map(t@) is Some => built_from(
                    r@,
                    json_string_map(t@).unwrap(),
                ),
                _ => match json_string_map(BUILTIN_JSON@) {
                    Some(raw) => built_from(r@, raw),
                    None => r@ == Map::<Seq<char>, Seq<char>>::empty(),
                },
            },
    {
        if let Some(t) = text {
            if let Ok(dict) = Self::from_json(t) {
                return dict;
            }
        }
        Self::builtin()
    }

    /// The canonical header for `header`, looked up by its normalized form.
    pub fn canonical_for(&self, header: &str) -> (r: Option<&str>)
        ensures
            match r {
                Some(c) => self@.contains_key(normalized(header@)) && c@ == self@[normalized(
                    header@,
                )],
                None => !self@.contains_key(normalized(header@)),
            },
    {
        proof {
            use_type_invariant(self);
        }
        let key = normalize_header(header);
        let mut i: usize = 0;
        while i < self.entries.len()
            invariant
                i <= self.entries@.len(),
                distinct_keys(self.entries@),
                key@ == normalized(header@),
                forall|p: int| 0 <= p < i ==> self.entries@[p].0@ != key@,
            decreases self.entries@.len() - i,
        {
            if self.entries[i].0 == key {
                proof {
                    lemma_entry_map_at(self.entries@, i as int);
                }
                return Some(self.entries[i].1.as_str());
            }
            i = i + 1;
        }
        None
    }
}

impl Default for AliasDictionary {
    fn default() -> (r: Self)
        ensures
            r@ == Map::<Seq<char>, Seq<char>>::empty(),
    {
        let r = AliasDictionary { entries: Vec::new() };
        assert(r@ =~= Map::<Seq<char>, Seq<char>>::empty());
        r
    }
}

} // verus!
