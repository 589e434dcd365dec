//! Light header normalization. Intentionally conservative: semantic tokens are kept.
use vstd::prelude::*;

use crate::text::{
    ascii_lower, chars_of, is_ascii, is_white_space, ends_with, lemma_trim_idempotent, occurs_at, trim_end,
    trim_start, ends_with_chars, replace_all, replace_all_chars, replace_chars,
    replace_chars_exec, string_of, trim, trim_chars, trim_end_matches, trim_end_matches_chars,
};

verus! {

/// Lower-case form of a text, as std's `str::to_lowercase` computes it
/// (full Unicode case mapping).
pub uninterp spec fn lowercase(s: Seq<char>) -> Seq<char>;

/// std's `str::to_lowercase`. Trusted: the result is `lowercase` of the input's
/// characters; for text of ASCII characters only, whose Unicode lower case is
/// their ASCII lower case, that is each capital letter made small.
#[verifier::external_body]
fn to_lowercase(s: &str) -> (r: String)
    ensures
        r@ == lowercase(s@),
        (forall|k: int| 0 <= k < s@.len() ==> is_ascii(#[trigger] s@[k])) ==> r@ == s@.map_values(
            |c: char| ascii_lower(c),
        ),
{
    s.to_lowercase()
}

/// `s` with every run of two or more spaces shortened to a single space.
pub open spec fn collapse_spaces(s: Seq<char>) -> Seq<char>
    decreases s.len(),
{
    if s.len() == 0 {
        s
    } else if s.len() >= 2 && s[0] == ' ' && s[1] == ' ' {
        collapse_spaces(s.drop_first())
    } else {
        seq![s[0]] + collapse_spaces(s.drop_first())
    }
}

/// The "required" / "optional" notes that header cells carry and that are
/// removed, in this order (the first one twice: its second pass removes what
/// removing the second one may have joined).
pub open spec fn required_notes() -> Seq<Seq<char>> {
    seq![
        "（必填）"@,
        "(必填)"@,
        "（必填）"@,
        "【必填】"@,
        "[必填]"@,
        "（选填）"@,
        "(选填)"@,
        "（可选）"@,
        "(可选)"@,
        "（必填项）"@,
        "(必填项)"@,
    ]
}

/// `s` with every occurrence of each note removed, one note after the other.
pub open spec fn strip_notes(s: Seq<char>, notes: Seq<Seq<char>>) -> Seq<char>
    decreases notes.len(),
{
    if notes.len() == 0 {
        s
    } else {
        strip_notes(replace_all(s, notes[0], seq![]), notes.drop_first())
    }
}

/// The header before case folding: trimmed, line breaks and tabs turned into
/// spaces, space runs shortened, `*` and colons removed, notes removed, trimmed
/// again, and a trailing "必填" dropped from a header longer than two characters.
pub open spec fn header_key(input: Seq<char>) -> Seq<char> {
    let s = trim(input);
    let s = replace_chars(s, seq!['\n', '\r', '\t'], seq![' ']);
    let s = collapse_spaces(s);
    let s = replace_chars(s, seq!['*'], seq![]);
    let s = replace_chars(s, seq!['：', ':'], seq![]);
    let s = strip_notes(s, required_notes());
    let s = trim(s);
    if ends_with(s, "必填"@) && s.len() > 2 {
        trim(trim_end_matches(s, "必填"@))
    } else {
        s
    }
}

/// What `normalize_header` returns for `input`.
pub open spec fn normalized(input: Seq<char>) -> Seq<char> {
    lowercase(header_key(input))
}

fn collapse_spaces_chars(s: &[char]) -> (out: Vec<char>)
    ensures
        out@ == collapse_spaces(s@),
{
    let mut out: Vec<char> = Vec::new();
    let mut i: usize = 0;
    assert(s@.skip(0) =~= s@);
    while i < s.len()
        invariant
            i <= s@.len(),
            out@ + collapse_spaces(s@.skip(i as int)) == collapse_spaces(s@),
        decreases s@.len() - i,
    {
        let ghost rest = s@.skip(i as int);
        assert(rest.drop_first() =~= s@.skip(i + 1));
        assert(rest[0] == s@[i as int]);
        if s[i] == ' ' && i + 1 < s.len() && s[i + 1] == ' ' {
            assert(rest[1] == s@[i + 1]);
        } else {
            let ghost before = out@;
            out.push(s[i]);
            assert(out@ + collapse_spaces(s@.skip(i + 1)) =~= before + (seq![rest[0]]
                + collapse_spaces(rest.drop_first())));
        }
        i = i + 1;
    }
    assert(out@ + collapse_spaces(s@.skip(i as int)) =~= out@);
    out
}

fn note_list() -> (v: Vec<&'static str>)
    ensures
        v@.len() == required_notes().len(),
        forall|i: int| 0 <= i < v@.len() ==> #[trigger] v@[i]@ == required_notes()[i],
{
    let v = vec![
        "（必填）",
        "(必填)",
        "（必填）",
        "【必填】",
        "[必填]",
        "（选填）",
        "(选填)",
        "（可选）",
        "(可选)",
        "（必填项）",
        "(必填项)",
    ];
    v
}

proof fn lemma_strip_notes_step(s: Seq<char>, notes: Seq<Seq<char>>, i: int)
    requires
        0 <= i < notes.len(),
    ensures
        strip_notes(s, notes.skip(i)) == strip_notes(
            replace_all(s, notes[i], seq![]),
            notes.skip(i + 1),
        ),
{
    assert(notes.skip(i)[0] == notes[i]);
    assert(notes.skip(i).drop_first() =~= notes.skip(i + 1));
}

/// Every character of `s` satisfies `f`.
pub open spec fn all_sat(s: Seq<char>, f: spec_fn(char) -> bool) -> bool {
    forall|k: int| 0 <= k < s.len() ==> f(#[trigger] s[k])
}

pub proof fn lemma_trim_sat(s: Seq<char>, f: spec_fn(char) -> bool)
    requires
        all_sat(s, f),
    ensures
        all_sat(trim_start(s), f),
        all_sat(trim_end(s), f),
        all_sat(trim(s), f),
    decreases s.len(),
{
    if s.len() > 0 {
        lemma_trim_sat(s.drop_first(), f);
        lemma_trim_sat(s.drop_last(), f);
        assert(all_sat(s.drop_first(), f)) by {
            assert forall|k: int| 0 <= k < s.drop_first().len() implies f(
                #[trigger] s.drop_first()[k],
            ) by {
                assert(s.drop_first()[k] == s[k + 1]);
            }
        }
        assert(all_sat(s.drop_last(), f)) by {
            assert forall|k: int| 0 <= k < s.drop_last().len() implies f(
                #[trigger] s.drop_last()[k],
            ) by {
                assert(s.drop_last()[k] == s[k]);
            }
        }
        lemma_trim_sat(s.drop_first(), f);
        lemma_trim_sat(s.drop_last(), f);
        lemma_trim_end_of(trim_start(s), f);
    }
}

proof fn lemma_trim_end_of(s: Seq<char>, f: spec_fn(char) -> bool)
    requires
        all_sat(s, f),
    ensures
        all_sat(trim_end(s), f),
    decreases s.len(),
{
    if s.len() > 0 {
        assert forall|k: int| 0 <= k < s.drop_last().len() implies f(#[trigger] s.drop_last()[k]) by {
            assert(s.drop_last()[k] == s[k]);
        }
        lemma_trim_end_of(s.drop_last(), f);
    }
}

proof fn lemma_replace_chars_sat(s: Seq<char>, set: Seq<char>, r: Seq<char>, f: spec_fn(char) -> bool)
    requires
        forall|k: int| 0 <= k < s.len() ==> f(#[trigger] s[k]) || set.contains(s[k]),
        all_sat(r, f),
    ensures
        all_sat(replace_chars(s, set, r), f),
    decreases s.len(),
{
    if s.len() > 0 {
        assert forall|k: int| 0 <= k < s.drop_last().len() implies f(#[trigger] s.drop_last()[k])
            || set.contains(s.drop_last()[k]) by {
            assert(s.drop_last()[k] == s[k]);
        }
        lemma_replace_chars_sat(s.drop_last(), set, r, f);
        let a = replace_chars(s.drop_last(), set, r);
        let b = if set.contains(s.last()) {
            r
        } else {
            seq![s.last()]
        };
        assert forall|k: int| 0 <= k < (a + b).len() implies f(#[trigger] (a + b)[k]) by {
            if k >= a.len() {
                assert((a + b)[k] == b[k - a.len()]);
            } else {
                assert((a + b)[k] == a[k]);
            }
        }
    }
}

proof fn lemma_collapse_sat(s: Seq<char>, f: spec_fn(char) -> bool)
    requires
        all_sat(s, f),
    ensures
        all_sat(collapse_spaces(s), f),
    decreases s.len(),
{
    if s.len() > 0 {
        assert forall|k: int| 0 <= k < s.drop_first().len() implies f(#[trigger] s.drop_first()[k]) by {
            assert(s.drop_first()[k] == s[k + 1]);
        }
        lemma_collapse_sat(s.drop_first(), f);
        let t = collapse_spaces(s.drop_first());
        assert forall|k: int| 0 <= k < (seq![s[0]] + t).len() implies f(
            #[trigger] (seq![s[0]] + t)[k],
        ) by {
            if k > 0 {
                assert((seq![s[0]] + t)[k] == t[k - 1]);
            }
        }
    }
}

proof fn lemma_replace_all_sat(s: Seq<char>, p: Seq<char>, r: Seq<char>, f: spec_fn(char) -> bool)
    requires
        all_sat(s, f),
        all_sat(r, f),
    ensures
        all_sat(replace_all(s, p, r), f),
    decreases s.len(),
{
    if s.len() > 0 && p.len() > 0 {
        if occurs_at(s, p, 0) {
            assert forall|k: int| 0 <= k < s.skip(p.len() as int).len() implies f(
                #[trigger] s.skip(p.len() as int)[k],
            ) by {
                assert(s.skip(p.len() as int)[k] == s[k + p.len()]);
            }
            lemma_replace_all_sat(s.skip(p.len() as int), p, r, f);
            let t = replace_all(s.skip(p.len() as int), p, r);
            assert forall|k: int| 0 <= k < (r + t).len() implies f(#[trigger] (r + t)[k]) by {
                if k >= r.len() {
                    assert((r + t)[k] == t[k - r.len()]);
                } else {
                    assert((r + t)[k] == r[k]);
                }
            }
        } else {
            assert forall|k: int| 0 <= k < s.skip(1).len() implies f(#[trigger] s.skip(1)[k]) by {
                assert(s.skip(1)[k] == s[k + 1]);
            }
            lemma_replace_all_sat(s.skip(1), p, r, f);
            let t = replace_all(s.skip(1), p, r);
            assert forall|k: int| 0 <= k < (seq![s[0]] + t).len() implies f(
                #[trigger] (seq![s[0]] + t)[k],
            ) by {
                if k > 0 {
                    assert((seq![s[0]] + t)[k] == t[k - 1]);
                }
            }
        }
    }
}

proof fn lemma_strip_notes_sat(s: Seq<char>, notes: Seq<Seq<char>>, f: spec_fn(char) -> bool)
    requires
        all_sat(s, f),
    ensures
        all_sat(strip_notes(s, notes), f),
    decreases notes.len(),
{
    if notes.len() > 0 {
        assert(all_sat(Seq::<char>::empty(), f));
        assert(seq![] =~= Seq::<char>::empty());
        lemma_replace_all_sat(s, notes[0], seq![], f);
        lemma_strip_notes_sat(replace_all(s, notes[0], seq![]), notes.drop_first(), f);
    }
}

proof fn lemma_trim_end_matches_sat(s: Seq<char>, p: Seq<char>, f: spec_fn(char) -> bool)
    requires
        all_sat(s, f),
    ensures
        all_sat(trim_end_matches(s, p), f),
    decreases s.len(),
{
    if p.len() > 0 && s.len() >= p.len() && ends_with(s, p) {
        let t = s.subrange(0, s.len() - p.len());
        assert forall|k: int| 0 <= k < t.len() implies f(#[trigger] t[k]) by {
            assert(t[k] == s[k]);
        }
        lemma_trim_end_matches_sat(t, p, f);
    }
}

/// The steps after the first trim of `header_key` keep a property of every
/// character that a space has.
proof fn lemma_key_steps_sat(s: Seq<char>, f: spec_fn(char) -> bool)
    requires
        all_sat(s, f),
        f(' '),
    ensures
        all_sat(header_key(s), f),
{
    let t0 = trim(s);
    lemma_trim_sat(s, f);
    assert(all_sat(seq![' '], f));
    lemma_replace_chars_sat(t0, seq!['\n', '\r', '\t'], seq![' '], f);
    let t1 = replace_chars(t0, seq!['\n', '\r', '\t'], seq![' ']);
    lemma_collapse_sat(t1, f);
    let t2 = collapse_spaces(t1);
    assert(all_sat(Seq::<char>::empty(), f));
    assert(seq![] =~= Seq::<char>::empty());
    lemma_replace_chars_sat(t2, seq!['*'], seq![], f);
    let t3 = replace_chars(t2, seq!['*'], seq![]);
    lemma_replace_chars_sat(t3, seq!['：', ':'], seq![], f);
    let t4 = replace_chars(t3, seq!['：', ':'], seq![]);
    lemma_strip_notes_sat(t4, required_notes(), f);
    let t5 = trim(strip_notes(t4, required_notes()));
    lemma_trim_sat(strip_notes(t4, required_notes()), f);
    lemma_trim_end_matches_sat(t5, "必填"@, f);
    lemma_trim_sat(trim_end_matches(t5, "必填"@), f);
}

/// No character that `header_key` removes is left in it: no line break, tab,
/// `*` or colon; and it has no white space at either end.
pub proof fn header_key_laws(input: Seq<char>)
    ensures
        all_sat(
            header_key(input),
            |c: char| c != '\n' && c != '\r' && c != '\t' && c != '*' && c != ':' && c != '：',
        ),
        trim(header_key(input)) == header_key(input),
        all_sat(input, |c: char| is_ascii(c)) ==> all_sat(header_key(input), |c: char| is_ascii(c)),
{
    let t0 = trim(input);
    let f1 = |c: char| c != '\n' && c != '\r' && c != '\t';
    let f2 = |c: char| c != '\n' && c != '\r' && c != '\t' && c != '*';
    let f3 = |c: char| c != '\n' && c != '\r' && c != '\t' && c != '*' && c != ':' && c != '：';
    assert(all_sat(seq![' '], f1));
    assert forall|k: int| 0 <= k < t0.len() implies f1(#[trigger] t0[k]) || seq![
        '\n',
        '\r',
        '\t',
    ].contains(t0[k]) by {
        if !f1(t0[k]) {
            if t0[k] == '\n' {
                assert(seq!['\n', '\r', '\t'][0] == t0[k]);
            } else if t0[k] == '\r' {
                assert(seq!['\n', '\r', '\t'][1] == t0[k]);
            } else {
                assert(seq!['\n', '\r', '\t'][2] == t0[k]);
            }
        }
    }
    lemma_replace_chars_sat(t0, seq!['\n', '\r', '\t'], seq![' '], f1);
    let t1 = replace_chars(t0, seq!['\n', '\r', '\t'], seq![' ']);
    lemma_collapse_sat(t1, f1);
    let t2 = collapse_spaces(t1);
    assert(all_sat(Seq::<char>::empty(), f2));
    assert(all_sat(Seq::<char>::empty(), f3));
    assert(seq![] =~= Seq::<char>::empty());
    assert forall|k: int| 0 <= k < t2.len() implies f2(#[trigger] t2[k]) || seq!['*'].contains(t2[k]) by {
        assert(f1(t2[k]));
        if t2[k] == '*' {
            assert(seq!['*'][0] == t2[k]);
        }
    }
    lemma_replace_chars_sat(t2, seq!['*'], seq![], f2);
    let t3 = replace_chars(t2, seq!['*'], seq![]);
    assert forall|k: int| 0 <= k < t3.len() implies f3(#[trigger] t3[k]) || seq!['：', ':'].contains(
        t3[k],
    ) by {
        assert(f2(t3[k]));
        if t3[k] == '：' {
            assert(seq!['：', ':'][0] == t3[k]);
        } else if t3[k] == ':' {
            assert(seq!['：', ':'][1] == t3[k]);
        }
    }
    lemma_replace_chars_sat(t3, seq!['：', ':'], seq![], f3);
    let t4 = replace_chars(t3, seq!['：', ':'], seq![]);
    lemma_strip_notes_sat(t4, required_notes(), f3);
    let t5 = trim(strip_notes(t4, required_notes()));
    lemma_trim_sat(strip_notes(t4, required_notes()), f3);
    lemma_trim_end_matches_sat(t5, "必填"@, f3);
    lemma_trim_sat(trim_end_matches(t5, "必填"@), f3);
    lemma_trim_idempotent(strip_notes(t4, required_notes()));
    lemma_trim_idempotent(trim_end_matches(t5, "必填"@));
    if all_sat(input, |c: char| is_ascii(c)) {
        lemma_key_steps_sat(input, |c: char| is_ascii(c));
    }
}

/// The notes that mark a header cell required or optional; a header keeps its
/// meaning without them.
pub open spec fn header_notes() -> Seq<Seq<char>> {
    seq![
        "（选填）"@, "(选填)"@, "（可选）"@, "(可选)"@,
        "（必填）"@, "(必填)"@, "【必填】"@, "[必填]"@, "（必填项）"@, "(必填项)"@,
    ]
}

/// A bracket that opens a note.
pub open spec fn opens_note(c: char) -> bool {
    c == '（' || c == '(' || c == '【' || c == '['
}

/// A header text that the first normalizing steps leave alone and that holds
/// no note: no white space, no `*`, no colon and no opening bracket.
pub open spec fn plain_header(h: Seq<char>) -> bool {
    forall|k: int|
        0 <= k < h.len() ==> !is_white_space(#[trigger] h[k]) && h[k] != '*' && h[k] != ':' && h[k]
            != '：' && !opens_note(h[k])
}

/// A note as the list holds it: an opening bracket, then no other, and no
/// white space, `*` or colon.
spec fn note_shaped(n: Seq<char>) -> bool {
    &&& n.len() > 0
    &&& opens_note(n[0])
    &&& forall|k: int|
        0 <= k < n.len() ==> !is_white_space(#[trigger] n[k]) && n[k] != '*' && n[k] != ':' && n[k]
            != '：' && (k > 0 ==> !opens_note(n[k]))
}

spec fn prefix_of(n: Seq<char>, x: Seq<char>) -> bool {
    n.len() <= x.len() && x.take(n.len() as int) == n
}

proof fn lemma_trim_fixed(s: Seq<char>)
    requires
        forall|k: int| 0 <= k < s.len() ==> !is_white_space(#[trigger] s[k]),
    ensures
        trim(s) == s,
{
    assert(trim_start(s) == s);
    assert(trim_end(s) == s);
}

proof fn lemma_replace_chars_fixed(s: Seq<char>, set: Seq<char>, r: Seq<char>)
    requires
        forall|k: int| 0 <= k < s.len() ==> !set.contains(#[trigger] s[k]),
    ensures
        replace_chars(s, set, r) == s,
    decreases s.len(),
{
    if s.len() > 0 {
        assert forall|k: int| 0 <= k < s.drop_last().len() implies !set.contains(#[trigger] s.drop_last()[k]) by {
            assert(s.drop_last()[k] == s[k]);
        }
        lemma_replace_chars_fixed(s.drop_last(), set, r);
        assert(!set.contains(s[s.len() - 1]));
        assert(s.drop_last() + seq![s.last()] =~= s);
    }
}

proof fn lemma_collapse_fixed(s: Seq<char>)
    requires
        forall|k: int| 0 <= k < s.len() ==> #[trigger] s[k] != ' ',
    ensures
        collapse_spaces(s) == s,
    decreases s.len(),
{
    if s.len() > 0 {
        assert forall|k: int| 0 <= k < s.drop_first().len() implies #[trigger] s.drop_first()[k] != ' ' by {
            assert(s.drop_first()[k] == s[k + 1]);
        }
        lemma_collapse_fixed(s.drop_first());
        assert(s[0] != ' ');
        assert(seq![s[0]] + s.drop_first() =~= s);
    }
}

proof fn lemma_replace_all_fixed(s: Seq<char>, n: Seq<char>, r: Seq<char>)
    requires
        n.len() > 0,
        forall|i: int| 0 <= i < s.len() ==> !occurs_at(s, n, i),
    ensures
        replace_all(s, n, r) == s,
    decreases s.len(),
{
    if s.len() > 0 {
        assert(!occurs_at(s, n, 0));
        assert forall|i: int| 0 <= i < s.skip(1).len() implies !occurs_at(s.skip(1), n, i) by {
            assert(!occurs_at(s, n, i + 1));
            if occurs_at(s.skip(1), n, i) {
                assert(s.subrange(i + 1, i + 1 + n.len()) =~= s.skip(1).subrange(i, i + n.len()));
            }
        }
        lemma_replace_all_fixed(s.skip(1), n, r);
        assert(seq![s[0]] + s.skip(1) =~= s);
    }
}

proof fn lemma_replace_all_tail(h: Seq<char>, x: Seq<char>)
    requires
        x.len() > 0,
        forall|i: int| 0 <= i < h.len() ==> !occurs_at(h + x, x, i),
    ensures
        replace_all(h + x, x, seq![]) == h,
    decreases h.len(),
{
    if h.len() == 0 {
        assert(h + x =~= x);
        assert(x.subrange(0, x.len() as int) =~= x);
        assert(occurs_at(x, x, 0));
        assert(x.skip(x.len() as int) =~= Seq::<char>::empty());
        assert(seq![] + replace_all(x.skip(x.len() as int), x, seq![]) =~= h);
    } else {
        let t = h.skip(1);
        assert((h + x).skip(1) =~= t + x);
        assert(!occurs_at(h + x, x, 0));
        assert forall|i: int| 0 <= i < t.len() implies !occurs_at(t + x, x, i) by {
            assert(!occurs_at(h + x, x, i + 1));
            if occurs_at(t + x, x, i) {
                assert((h + x).subrange(i + 1, i + 1 + x.len()) =~= (t + x).subrange(i, i + x.len()));
            }
        }
        lemma_replace_all_tail(t, x);
        assert(seq![h[0]] + t =~= h);
    }
}

/// A note that is not a prefix of `x` does not occur in a plain header
/// followed by `x`, and `x` occurs there only after the header.
proof fn lemma_note_occurrences(h: Seq<char>, x: Seq<char>, n: Seq<char>, i: int)
    requires
        plain_header(h),
        note_shaped(x),
        note_shaped(n),
        0 <= i < (h + x).len(),
        occurs_at(h + x, n, i),
    ensures
        i == h.len(),
        prefix_of(n, x),
{
    let s = h + x;
    assert(s.subrange(i, i + n.len())[0] == n[0]);
    assert(s[i] == n[0]);
    if i < h.len() {
        assert(s[i] == h[i]);
    } else if i > h.len() {
        assert(s[i] == x[i - h.len()]);
    } else {
        assert(x.take(n.len() as int) =~= s.subrange(i, i + n.len()));
    }
}

proof fn lemma_strip_plain(h: Seq<char>, ns: Seq<Seq<char>>)
    requires
        plain_header(h),
        forall|j: int| 0 <= j < ns.len() ==> note_shaped(#[trigger] ns[j]),
    ensures
        strip_notes(h, ns) == h,
    decreases ns.len(),
{
    if ns.len() > 0 {
        let n = ns[0];
        assert(note_shaped(n));
        assert forall|i: int| 0 <= i < h.len() implies !occurs_at(h, n, i) by {
            if occurs_at(h, n, i) {
                assert(h.subrange(i, i + n.len())[0] == n[0]);
            }
        }
        lemma_replace_all_fixed(h, n, seq![]);
        assert forall|j: int| 0 <= j < ns.drop_first().len() implies note_shaped(#[trigger] ns.drop_first()[j]) by {
            assert(ns.drop_first()[j] == ns[j + 1]);
        }
        lemma_strip_plain(h, ns.drop_first());
    }
}

proof fn lemma_strip_note(h: Seq<char>, x: Seq<char>, ns: Seq<Seq<char>>)
    requires
        plain_header(h),
        note_shaped(x),
        ns.contains(x),
        forall|j: int| 0 <= j < ns.len() ==> note_shaped(#[trigger] ns[j]) && (ns[j] == x || !prefix_of(ns[j], x)),
    ensures
        strip_notes(h + x, ns) == h,
    decreases ns.len(),
{
    let n = ns[0];
    assert(note_shaped(n) && (n == x || !prefix_of(n, x)));
    assert forall|j: int| 0 <= j < ns.drop_first().len() implies note_shaped(#[trigger] ns.drop_first()[j])
        && (ns.drop_first()[j] == x || !prefix_of(ns.drop_first()[j], x)) by {
        assert(ns.drop_first()[j] == ns[j + 1]);
    }
    if n == x {
        assert forall|i: int| 0 <= i < h.len() implies !occurs_at(h + x, x, i) by {
            if occurs_at(h + x, x, i) {
                lemma_note_occurrences(h, x, x, i);
            }
        }
        lemma_replace_all_tail(h, x);
        lemma_strip_plain(h, ns.drop_first());
    } else {
        assert forall|i: int| 0 <= i < (h + x).len() implies !occurs_at(h + x, n, i) by {
            if occurs_at(h + x, n, i) {
                lemma_note_occurrences(h, x, n, i);
            }
        }
        lemma_replace_all_fixed(h + x, n, seq![]);
        let j = choose|j: int| 0 <= j < ns.len() && ns[j] == x;
        assert(j > 0);
        assert(ns.drop_first()[j - 1] == x);
        lemma_strip_note(h, x, ns.drop_first());
    }
}

/// The first steps of `header_key` (trim, line breaks, spaces, `*`, colons)
/// leave a text alone that has no white space, `*` or colon.
proof fn lemma_first_steps_fixed(s: Seq<char>)
    requires
        forall|k: int|
            0 <= k < s.len() ==> !is_white_space(#[trigger] s[k]) && s[k] != '*' && s[k] != ':' && s[k]
                != '：',
    ensures
        replace_chars(
            replace_chars(
                collapse_spaces(replace_chars(trim(s), seq!['\n', '\r', '\t'], seq![' '])),
                seq!['*'],
                seq![],
            ),
            seq!['：', ':'],
            seq![],
        ) == s,
{
    lemma_trim_fixed(s);
    lemma_replace_chars_fixed(s, seq!['\n', '\r', '\t'], seq![' ']);
    lemma_collapse_fixed(s);
    lemma_replace_chars_fixed(s, seq!['*'], seq![]);
    lemma_replace_chars_fixed(s, seq!['：', ':'], seq![]);
}

proof fn lemma_header_notes_shaped()
    ensures
        forall|j: int| 0 <= j < header_notes().len() ==> note_shaped(#[trigger] header_notes()[j]),
        forall|j: int| 0 <= j < required_notes().len() ==> note_shaped(#[trigger] required_notes()[j]),
        forall|j: int| 0 <= j < header_notes().len() ==> required_notes().contains(#[trigger] header_notes()[j]),
        forall|a: int, b: int|
            0 <= a < required_notes().len() && 0 <= b < header_notes().len() ==> #[trigger] required_notes()[a]
                == #[trigger] header_notes()[b] || !prefix_of(required_notes()[a], header_notes()[b]),
{
    reveal_strlit("（必填）");
    reveal_strlit("(必填)");
    reveal_strlit("【必填】");
    reveal_strlit("[必填]");
    reveal_strlit("（选填）");
    reveal_strlit("(选填)");
    reveal_strlit("（可选）");
    reveal_strlit("(可选)");
    reveal_strlit("（必填项）");
    reveal_strlit("(必填项)");
    assert forall|j: int| 0 <= j < header_notes().len() implies required_notes().contains(#[trigger] header_notes()[j]) by {
        let k = if j < 4 { j + 5 } else if j < 6 { j - 4 } else if j < 8 { j - 3 } else { j + 1 };
        assert(required_notes()[k] == header_notes()[j]);
    }
    assert forall|a: int, b: int|
        0 <= a < required_notes().len() && 0 <= b < header_notes().len() implies #[trigger] required_notes()[a]
            == #[trigger] header_notes()[b] || !prefix_of(required_notes()[a], header_notes()[b]) by {
        let n = required_notes()[a];
        let x = header_notes()[b];
        if n != x && prefix_of(n, x) {
            assert(x.take(n.len() as int)[1] == n[1]);
            assert(x.take(n.len() as int)[0] == n[0]);
            assert(x.take(n.len() as int)[2] == n[2]);
            assert(x.take(n.len() as int)[3] == n[3]);
            if n.len() == x.len() {
                assert(x.take(n.len() as int) =~= x);
            }
        }
    }
}

/// A required or optional note after a header is dropped: for a header
/// without notes, white space, `*` or colons, the header followed by any of
/// the notes normalizes as the header alone (so "姓名（选填）" and "部门(可选)"
/// still match the fields 姓名 and 部门).
pub proof fn notes_are_dropped(h: Seq<char>, j: int)
    requires
        plain_header(h),
        0 <= j < header_notes().len(),
    ensures
        header_key(h + header_notes()[j]) == header_key(h),
        normalized(h + header_notes()[j]) == normalized(h),
{
    let x = header_notes()[j];
    lemma_header_notes_shaped();
    assert(note_shaped(x));
    assert(required_notes().contains(x));
    assert forall|i: int| 0 <= i < required_notes().len() implies note_shaped(#[trigger] required_notes()[i])
        && (required_notes()[i] == x || !prefix_of(required_notes()[i], x)) by {
        assert(required_notes()[i] == header_notes()[j] || !prefix_of(required_notes()[i], header_notes()[j]));
    }
    assert forall|k: int|
        0 <= k < (h + x).len() implies !is_white_space(#[trigger] (h + x)[k]) && (h + x)[k] != '*' && (
        h + x)[k] != ':' && (h + x)[k] != '：' by {
        if k < h.len() {
            assert((h + x)[k] == h[k]);
        } else {
            assert((h + x)[k] == x[k - h.len()]);
        }
    }
    lemma_first_steps_fixed(h + x);
    lemma_first_steps_fixed(h);
    lemma_strip_note(h, x, required_notes());
    assert forall|i: int| 0 <= i < required_notes().len() implies note_shaped(#[trigger] required_notes()[i]) by {}
    lemma_strip_plain(h, required_notes());
}

/// Normalizes a header cell: see `header_key` for the steps; the result is then
/// lower-cased, which for a key of ASCII characters makes each capital letter small.
pub fn normalize_header(input: &str) -> (r: String)
    ensures
        r@ == normalized(input@),
        (forall|k: int|
            0 <= k < header_key(input@).len() ==> is_ascii(#[trigger] header_key(input@)[k])) ==> r@
            == header_key(input@).map_values(|c: char| ascii_lower(c)),
        all_sat(input@, |c: char| is_ascii(c)) ==> all_sat(r@, |c: char| !('A' <= c && c <= 'Z')),
{
    let v = chars_of(input);
    let s = trim_chars(v.as_slice());
    let breaks = vec!['\n', '\r', '\t'];
    let space = vec![' '];
    let none: Vec<char> = Vec::new();
    assert(breaks@ =~= seq!['\n', '\r', '\t']);
    assert(space@ =~= seq![' ']);
    assert(none@ =~= Seq::<char>::empty());
    let s = replace_chars_exec(s.as_slice(), breaks.as_slice(), space.as_slice());
    let s = collapse_spaces_chars(s.as_slice());
    let star = vec!['*'];
    assert(star@ =~= seq!['*']);
    let s = replace_chars_exec(s.as_slice(), star.as_slice(), none.as_slice());
    let colons = vec!['：', ':'];
    assert(colons@ =~= seq!['：', ':']);
    let mut s = replace_chars_exec(s.as_slice(), colons.as_slice(), none.as_slice());

    let notes = note_list();
    let ghost start = s@;
    let mut i: usize = 0;
    assert(required_notes().skip(0) =~= required_notes());
    while i < notes.len()
        invariant
            i <= notes@.len() == required_notes().len(),
            forall|k: int| 0 <= k < notes@.len() ==> #[trigger] notes@[k]@ == required_notes()[k],
            none@.len() == 0,
            strip_notes(s@, required_notes().skip(i as int)) == strip_notes(start, required_notes()),
        decreases notes@.len() - i,
    {
        let note = chars_of(notes[i]);
        proof {
            lemma_strip_notes_step(s@, required_notes(), i as int);
            assert(none@ =~= seq![]);
        }
        if note.len() > 0 {
            s = replace_all_chars(s.as_slice(), note.as_slice(), none.as_slice());
        } else {
            assert(replace_all(s@, note@, none@) == s@);
        }
        i = i + 1;
    }
    assert(required_notes().skip(i as int).len() == 0);
    let s = trim_chars(s.as_slice());
    let suffix = chars_of("必填");
    let s = if ends_with_chars(s.as_slice(), suffix.as_slice()) && s.len() > 2 {
        let t = trim_end_matches_chars(s.as_slice(), suffix.as_slice());
        trim_chars(t.as_slice())
    } else {
        s
    };
    let out = string_of(s.as_slice());
    let r = to_lowercase(out.as_str());
    proof {
        header_key_laws(input@);
        if all_sat(input@, |c: char| is_ascii(c)) {
            assert forall|k: int| 0 <= k < out@.len() implies is_ascii(#[trigger] out@[k]) by {
                assert((|c: char| is_ascii(c))(out@[k]));
            }
        }
    }
    r
}

} // verus!
