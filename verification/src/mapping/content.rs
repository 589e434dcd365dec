//! First-row content inference: recognizes what kind of value a column holds.
use vstd::prelude::*;

use crate::domain::mapping::{SourceColumn, SourceColumnView};
use crate::seqs::{first_match, lemma_first_match_at, lemma_first_match_none};
use crate::text::{
    ascii_alpha, ascii_char, ascii_digit, ascii_lower, chars_of, concat, contains_chars,
    contains_seq, count_char, count_of, find_char, first_index_of, is_ascii, is_ascii_alnum,
    is_ascii_alpha, is_ascii_digit, is_white_space, rfind_char, slice_chars, string_of,
    to_ascii_lower, trim, trim_chars, trim_str, white_space,
};

verus! {

#[derive(Debug, Clone, Copy, PartialEq, Eq, Structural)]
pub enum ContentKind {
    Email,
    Date,
    Phone,
    LongId,
}

/// Generic type labels for a detected kind of value (not column-name synonyms).
pub open spec fn kind_tokens(kind: ContentKind) -> Seq<Seq<char>> {
    match kind {
        ContentKind::Email => seq!["email"@, "mail"@, "邮箱"@, "电子邮件"@, "邮件"@],
        ContentKind::Date => seq!["date"@, "日期"@, "年月日"@, "time"@, "时间"@],
        ContentKind::Phone => seq!["phone"@, "mobile"@, "telephone"@, "电话"@, "手机"@],
        ContentKind::LongId => seq!["number"@, "编号"@, "identifier"@],
    }
}

impl ContentKind {
    /// Generic type labels for the detected value — not column-name synonym pairs.
    pub fn type_tokens(self) -> (r: Vec<&'static str>)
        ensures
            r@.len() == kind_tokens(self).len(),
            forall|i: int| 0 <= i < r@.len() ==> #[trigger] r@[i]@ == kind_tokens(self)[i],
    {
        match self {
            ContentKind::Email => vec!["email", "mail", "邮箱", "电子邮件", "邮件"],
            ContentKind::Date => vec!["date", "日期", "年月日", "time", "时间"],
            ContentKind::Phone => vec!["phone", "mobile", "telephone", "电话", "手机"],
            ContentKind::LongId => vec!["number", "编号", "identifier"],
        }
    }
}

/// The first sample value that is not blank, trimmed.
pub open spec fn first_sample_of(values: Seq<Seq<char>>) -> Option<Seq<char>> {
    match first_match(values, |v: Seq<char>| trim(v).len() > 0) {
        Some(i) => Some(trim(values[i])),
        None => None,
    }
}

pub fn first_sample(source: &SourceColumn) -> (r: Option<&str>)
    ensures
        match first_sample_of(source@.sample_values) {
            Some(v) => r matches Some(s) && s@ == v,
            None => r is None,
        },
{
    let ghost values = source@.sample_values;
    let mut i: usize = 0;
    while i < source.sample_values.len()
        invariant
            i <= source.sample_values@.len(),
            values == source@.sample_values,
            forall|k: int| 0 <= k < i ==> trim(#[trigger] values[k]).len() == 0,
        decreases source.sample_values@.len() - i,
    {
        let value = trim_str(source.sample_values[i].as_str());
        assert(values[i as int] == source.sample_values@[i as int]@);
        if value.unicode_len() > 0 {
            proof {
                lemma_first_match_at(values, |v: Seq<char>| trim(v).len() > 0, i as int);
            }
            return Some(value);
        }
        i = i + 1;
    }
    proof {
        lemma_first_match_none(values, |v: Seq<char>| trim(v).len() > 0);
    }
    None
}

// ---------------------------------------------------------------- value shapes

/// The position of the last `c` in `s`, if any.
pub open spec fn last_index_of(s: Seq<char>, c: char) -> Option<int> {
    if exists|i: int| 0 <= i < s.len() && s[i] == c {
        Some(choose|i: int| 0 <= i < s.len() && s[i] == c && forall|k: int| i < k < s.len() ==> s[k] != c)
    } else {
        None
    }
}

proof fn lemma_last_index_of(s: Seq<char>, c: char, i: int)
    requires
        0 <= i < s.len(),
        s[i] == c,
        forall|k: int| i < k < s.len() ==> s[k] != c,
    ensures
        last_index_of(s, c) == Some(i),
{
    let w = choose|j: int| 0 <= j < s.len() && s[j] == c && forall|k: int| j < k < s.len() ==> s[k] != c;
    assert(0 <= i < s.len() && s[i] == c && forall|k: int| i < k < s.len() ==> s[k] != c);
    if w < i {
    } else if w > i {
    }
}

pub open spec fn email_local_char(c: char) -> bool {
    is_ascii_alnum(c) || c == '.' || c == '_' || c == '+' || c == '-' || c == '%'
}

/// `local@domain` with a dotted domain: no white space, at most 254 bytes of
/// UTF-8, one `@`, non-empty local part of letters, digits and `._+-%`, a non-empty
/// host before the last dot and a top-level label of two or more ASCII letters.
pub open spec fn is_email_like(s: Seq<char>) -> bool {
    &&& forall|i: int| 0 <= i < s.len() ==> !is_white_space(#[trigger] s[i])
    &&& vstd::utf8::encode_utf8(s).len() <= 254
    &&& match first_index_of(s, '@') {
        None => false,
        Some(at) => {
            let local = s.take(at);
            let domain = s.skip(at + 1);
            &&& local.len() > 0
            &&& domain.len() > 0
            &&& first_index_of(domain, '@') is None
            &&& match last_index_of(domain, '.') {
                None => false,
                Some(dot) => {
                    let host = domain.take(dot);
                    let tld = domain.skip(dot + 1);
                    &&& host.len() > 0
                    &&& tld.len() >= 2
                    &&& forall|i: int| 0 <= i < tld.len() ==> is_ascii_alpha(#[trigger] tld[i])
                    &&& forall|i: int| 0 <= i < local.len() ==> email_local_char(#[trigger] local[i])
                },
            }
        },
    }
}

fn all_chars_alpha(s: &[char]) -> (r: bool)
    ensures
        r == forall|i: int| 0 <= i < s@.len() ==> is_ascii_alpha(#[trigger] s@[i]),
{
    let mut i: usize = 0;
    while i < s.len()
        invariant
            i <= s@.len(),
            forall|k: int| 0 <= k < i ==> is_ascii_alpha(#[trigger] s@[k]),
        decreases s@.len() - i,
    {
        if !ascii_alpha(s[i]) {
            return false;
        }
        i = i + 1;
    }
    true
}

fn all_chars_digits(s: &[char]) -> (r: bool)
    ensures
        r == forall|i: int| 0 <= i < s@.len() ==> is_ascii_digit(#[trigger] s@[i]),
{
    let mut i: usize = 0;
    while i < s.len()
        invariant
            i <= s@.len(),
            forall|k: int| 0 <= k < i ==> is_ascii_digit(#[trigger] s@[k]),
        decreases s@.len() - i,
    {
        if !ascii_digit(s[i]) {
            return false;
        }
        i = i + 1;
    }
    true
}

fn all_local_chars(s: &[char]) -> (r: bool)
    ensures
        r == forall|i: int| 0 <= i < s@.len() ==> email_local_char(#[trigger] s@[i]),
{
    let mut i: usize = 0;
    while i < s.len()
        invariant
            i <= s@.len(),
            forall|k: int| 0 <= k < i ==> email_local_char(#[trigger] s@[k]),
        decreases s@.len() - i,
    {
        let c = s[i];
        if !(ascii_digit(c) || ascii_alpha(c) || c == '.' || c == '_' || c == '+' || c == '-' || c
            == '%') {
            return false;
        }
        i = i + 1;
    }
    true
}

pub fn looks_like_email(sample: &str) -> (r: bool)
    ensures
        r == is_email_like(sample@),
{
    let s = chars_of(sample);
    let mut i: usize = 0;
    while i < s.len()
        invariant
            i <= s@.len(),
            s@ == sample@,
            forall|k: int| 0 <= k < i ==> !is_white_space(#[trigger] s@[k]),
        decreases s@.len() - i,
    {
        if white_space(s[i]) {
            return false;
        }
        i = i + 1;
    }
    if sample.as_bytes().len() > 254 {
        return false;
    }
    let at = match find_char(s.as_slice(), '@') {
        Some(at) => at,
        None => return false,
    };
    let local = slice_chars(s.as_slice(), 0, at);
    let domain = slice_chars(s.as_slice(), at + 1, s.len());
    assert(local@ =~= s@.take(at as int));
    assert(domain@ =~= s@.skip(at + 1));
    if local.len() == 0 || domain.len() == 0 {
        return false;
    }
    if find_char(domain.as_slice(), '@').is_some() {
        return false;
    }
    let dot = match rfind_char(domain.as_slice(), '.') {
        Some(dot) => dot,
        None => {
            return false;
        },
    };
    proof {
        lemma_last_index_of(domain@, '.', dot as int);
    }
    let host = slice_chars(domain.as_slice(), 0, dot);
    let tld = slice_chars(domain.as_slice(), dot + 1, domain.len());
    assert(host@ =~= domain@.take(dot as int));
    assert(tld@ =~= domain@.skip(dot + 1));
    host.len() > 0 && tld.len() >= 2 && all_chars_alpha(tld.as_slice()) && all_local_chars(
        local.as_slice(),
    )
}

/// The value of a non-empty string of ASCII digits.
pub open spec fn digits_value(s: Seq<char>) -> int
    decreases s.len(),
{
    if s.len() == 0 {
        0
    } else {
        digits_value(s.drop_last()) * 10 + (s.last() as int - '0' as int)
    }
}

pub proof fn lemma_digits_value_grows(s: Seq<char>, i: int)
    requires
        0 <= i <= s.len(),
        forall|k: int| 0 <= k < s.len() ==> is_ascii_digit(#[trigger] s[k]),
    ensures
        digits_value(s) >= digits_value(s.take(i)) >= 0,
    decreases s.len() - i,
{
    if i < s.len() {
        lemma_digits_value_grows(s, i + 1);
        assert(s.take(i + 1).drop_last() =~= s.take(i));
        lemma_digits_value_nonneg(s.take(i));
    } else {
        assert(s.take(i) =~= s);
        lemma_digits_value_nonneg(s);
    }
}

proof fn lemma_digits_value_nonneg(s: Seq<char>)
    requires
        forall|k: int| 0 <= k < s.len() ==> is_ascii_digit(#[trigger] s[k]),
    ensures
        digits_value(s) >= 0,
    decreases s.len(),
{
    if s.len() > 0 {
        lemma_digits_value_nonneg(s.drop_last());
    }
}

/// Every character of `d` is an ASCII digit.
pub open spec fn all_digits(d: Seq<char>) -> bool {
    forall|k: int| 0 <= k < d.len() ==> is_ascii_digit(#[trigger] d[k])
}

/// `s` without a leading `c`, if it has one.
pub open spec fn strip_sign(s: Seq<char>, c: char) -> Seq<char> {
    if s.len() > 0 && s[0] == c {
        s.drop_first()
    } else {
        s
    }
}

/// The number an unsigned integer literal stands for, as `u32::from_str` reads it:
/// an optional `+`, then one or more ASCII digits, a value that fits in 32 bits.
pub open spec fn parse_u32(s: Seq<char>) -> Option<int> {
    let d = strip_sign(s, '+');
    if d.len() > 0 && all_digits(d) && digits_value(d) <= u32::MAX {
        Some(digits_value(d))
    } else {
        None
    }
}

/// The number a signed integer literal stands for, as `i32::from_str` reads it:
/// an optional `+` or `-`, then one or more ASCII digits, a value that fits in 32 bits.
pub open spec fn parse_i32(s: Seq<char>) -> Option<int> {
    if s.len() > 0 && s[0] == '-' {
        let d = s.drop_first();
        if d.len() > 0 && all_digits(d) && digits_value(d) <= 0x8000_0000 {
            Some(-digits_value(d))
        } else {
            None
        }
    } else {
        let d = strip_sign(s, '+');
        if d.len() > 0 && all_digits(d) && digits_value(d) <= i32::MAX {
            Some(digits_value(d))
        } else {
            None
        }
    }
}

/// Reads the digits of `d` as a number, or `None` when `d` is empty, holds another
/// character, or its value exceeds `limit`.
fn digits_up_to(d: &[char], limit: u64) -> (r: Option<u64>)
    requires
        limit <= u32::MAX + 1,
    ensures
        match r {
            Some(v) => d@.len() > 0 && all_digits(d@) && v == digits_value(d@) && v <= limit,
            None => !(d@.len() > 0 && all_digits(d@) && digits_value(d@) <= limit),
        },
{
    if d.len() == 0 {
        return None;
    }
    if !all_chars_digits(d) {
        return None;
    }
    let mut v: u64 = 0;
    let mut i: usize = 0;
    while i < d.len()
        invariant
            i <= d@.len(),
            limit <= u32::MAX + 1,
            forall|k: int| 0 <= k < d@.len() ==> is_ascii_digit(#[trigger] d@[k]),
            v == digits_value(d@.take(i as int)),
            v <= limit,
        decreases d@.len() - i,
    {
        assert(d@.take(i + 1).drop_last() =~= d@.take(i as int));
        let digit = (d[i] as u32 - '0' as u32) as u64;
        let next = v * 10 + digit;
        if next > limit {
            proof {
                lemma_digits_value_grows(d@, i + 1);
            }
            return None;
        }
        v = next;
        i = i + 1;
    }
    assert(d@.take(i as int) =~= d@);
    Some(v)
}

fn parse_u32_exec(s: &[char]) -> (r: Option<u64>)
    ensures
        match r {
            Some(v) => parse_u32(s@) == Some(v as int),
            None => parse_u32(s@) is None,
        },
{
    if s.len() > 0 && s[0] == '+' {
        let d = slice_chars(s, 1, s.len());
        assert(d@ =~= s@.drop_first());
        let r = digits_up_to(d.as_slice(), 0xffff_ffff);
        r
    } else {
        let r = digits_up_to(s, 0xffff_ffff);
        assert(u32::MAX == 0xffff_ffff);
        r
    }
}

fn parse_i32_exec(s: &[char]) -> (r: Option<i64>)
    ensures
        match r {
            Some(v) => parse_i32(s@) == Some(v as int),
            None => parse_i32(s@) is None,
        },
{
    if s.len() > 0 && (s[0] == '+' || s[0] == '-') {
        let d = slice_chars(s, 1, s.len());
        assert(d@ =~= s@.drop_first());
        assert(s[0] == '+' ==> strip_sign(s@, '+') == d@);
        if s[0] == '-' {
            match digits_up_to(d.as_slice(), 0x8000_0000) {
                Some(v) => Some(0 - (v as i64)),
                None => None,
            }
        } else {
            match digits_up_to(d.as_slice(), 0x7fff_ffff) {
                Some(v) => Some(v as i64),
                None => None,
            }
        }
    } else {
        assert(strip_sign(s@, '+') == s@);
        match digits_up_to(s, 0x7fff_ffff) {
            Some(v) => Some(v as i64),
            None => None,
        }
    }
}

/// The part of a sample before its first `T`, `t` or space.
pub open spec fn date_part(s: Seq<char>) -> Seq<char> {
    match first_match(s, |c: char| c == 'T' || c == 't' || c == ' ') {
        Some(i) => s.take(i),
        None => s,
    }
}

/// The separator of a date: the first of `-`, `/`, `.` that occurs exactly twice.
pub open spec fn date_separator(d: Seq<char>) -> Option<char> {
    if count_of(d, '-') == 2 {
        Some('-')
    } else if count_of(d, '/') == 2 {
        Some('/')
    } else if count_of(d, '.') == 2 {
        Some('.')
    } else {
        None
    }
}

/// A calendar-like date: `year<sep>month<sep>day` before any time part, with a
/// four-character year in 1900..=2100, a month in 1..=12 and a day in 1..=31.
pub open spec fn is_date_like(s: Seq<char>) -> bool {
    let d = date_part(s);
    match date_separator(d) {
        None => false,
        Some(sep) => {
            let i1 = first_index_of(d, sep).unwrap();
            let rest = d.skip(i1 + 1);
            let i2 = first_index_of(rest, sep).unwrap();
            let year = d.take(i1);
            let month = rest.take(i2);
            let day = rest.skip(i2 + 1);
            &&& year.len() == 4
            &&& parse_i32(year) matches Some(y) && 1900 <= y <= 2100
            &&& parse_u32(month) matches Some(m) && 1 <= m <= 12
            &&& parse_u32(day) matches Some(dd) && 1 <= dd <= 31
        },
    }
}

proof fn lemma_count_positive(s: Seq<char>, c: char)
    requires
        count_of(s, c) > 0,
    ensures
        exists|i: int| 0 <= i < s.len() && s[i] == c,
    decreases s.len(),
{
    if s.last() != c {
        lemma_count_positive(s.drop_last(), c);
        let i = choose|i: int| 0 <= i < s.drop_last().len() && s.drop_last()[i] == c;
        assert(s[i] == c);
    } else {
        assert(s[s.len() - 1] == c);
    }
}

proof fn lemma_count_split(s: Seq<char>, c: char, i: int)
    requires
        0 <= i < s.len(),
        s[i] == c,
        forall|k: int| 0 <= k < i ==> s[k] != c,
    ensures
        count_of(s.skip(i + 1), c) + 1 == count_of(s, c),
{
    lemma_count_concat(s.take(i + 1), s.skip(i + 1), c);
    assert(s.take(i + 1) + s.skip(i + 1) =~= s);
    lemma_count_none(s.take(i), c);
    assert(s.take(i + 1).drop_last() =~= s.take(i));
}

proof fn lemma_count_none(s: Seq<char>, c: char)
    requires
        forall|k: int| 0 <= k < s.len() ==> s[k] != c,
    ensures
        count_of(s, c) == 0,
    decreases s.len(),
{
    if s.len() > 0 {
        lemma_count_none(s.drop_last(), c);
    }
}

proof fn lemma_count_concat(a: Seq<char>, b: Seq<char>, c: char)
    ensures
        count_of(a + b, c) == count_of(a, c) + count_of(b, c),
    decreases b.len(),
{
    if b.len() == 0 {
        assert(a + b =~= a);
    } else {
        lemma_count_concat(a, b.drop_last(), c);
        assert((a + b).drop_last() =~= a + b.drop_last());
    }
}

#[verifier::rlimit(40)]
pub fn looks_like_date(sample: &str) -> (r: bool)
    ensures
        r == is_date_like(sample@),
{
    let s = chars_of(sample);
    let mut cut: usize = 0;
    while cut < s.len() && !(s[cut] == 'T' || s[cut] == 't' || s[cut] == ' ')
        invariant
            cut <= s@.len(),
            forall|k: int| 0 <= k < cut ==> !(s@[k] == 'T' || s@[k] == 't' || s@[k] == ' '),
        decreases s@.len() - cut,
    {
        cut = cut + 1;
    }
    if cut < s.len() {
        proof {
            lemma_first_match_at(s@, |c: char| c == 'T' || c == 't' || c == ' ', cut as int);
        }
    } else {
        proof {
            lemma_first_match_none(s@, |c: char| c == 'T' || c == 't' || c == ' ');
        }
        assert(s@.take(cut as int) =~= s@);
    }
    let d = slice_chars(s.as_slice(), 0, cut);
    assert(d@ =~= date_part(sample@));
    let sep = if count_char(d.as_slice(), '-') == 2 {
        '-'
    } else if count_char(d.as_slice(), '/') == 2 {
        '/'
    } else if count_char(d.as_slice(), '.') == 2 {
        '.'
    } else {
        return false;
    };
    assert(date_separator(d@) == Some(sep));
    proof {
        lemma_count_positive(d@, sep);
    }
    let i1 = find_char(d.as_slice(), sep).unwrap();
    let rest = slice_chars(d.as_slice(), i1 + 1, d.len());
    assert(rest@ =~= d@.skip(i1 + 1));
    proof {
        lemma_count_split(d@, sep, i1 as int);
        lemma_count_positive(rest@, sep);
    }
    let i2 = find_char(rest.as_slice(), sep).unwrap();
    let year = slice_chars(d.as_slice(), 0, i1);
    let month = slice_chars(rest.as_slice(), 0, i2);
    let day = slice_chars(rest.as_slice(), i2 + 1, rest.len());
    assert(year@ =~= d@.take(i1 as int));
    assert(month@ =~= rest@.take(i2 as int));
    assert(day@ =~= rest@.skip(i2 + 1));
    if year.len() != 4 {
        return false;
    }
    let y = match parse_i32_exec(year.as_slice()) {
        Some(y) => y,
        None => return false,
    };
    let m = match parse_u32_exec(month.as_slice()) {
        Some(m) => m,
        None => return false,
    };
    let dd = match parse_u32_exec(day.as_slice()) {
        Some(dd) => dd,
        None => return false,
    };
    1900 <= y && y <= 2100 && 1 <= m && m <= 12 && 1 <= dd && dd <= 31
}

pub open spec fn phone_separator(c: char) -> bool {
    c == '+' || c == '-' || c == ' ' || c == '(' || c == ')' || c == '.'
}

/// The ASCII digits of `s`, in order.
pub open spec fn digits_in(s: Seq<char>) -> Seq<char>
    decreases s.len(),
{
    if s.len() == 0 {
        s
    } else if is_ascii_digit(s.last()) {
        digits_in(s.drop_last()).push(s.last())
    } else {
        digits_in(s.drop_last())
    }
}

/// A mainland mobile number: only digits and `+- ().`, and eleven digits starting
/// with `1`, optionally preceded by the country code 86.
pub open spec fn is_phone_like(s: Seq<char>) -> bool {
    let digits = digits_in(s);
    let rest = if starts_with_86(digits) && digits.len() == 13 {
        digits.skip(2)
    } else {
        digits
    };
    &&& forall|i: int| 0 <= i < s.len() ==> is_ascii_digit(#[trigger] s[i]) || phone_separator(s[i])
    &&& rest.len() == 11
    &&& rest[0] == '1'
}

pub open spec fn starts_with_86(d: Seq<char>) -> bool {
    d.len() >= 2 && d[0] == '8' && d[1] == '6'
}

proof fn lemma_digits_in_concat(a: Seq<char>, b: Seq<char>)
    ensures
        digits_in(a + b) == digits_in(a) + digits_in(b),
    decreases b.len(),
{
    if b.len() == 0 {
        assert(a + b =~= a);
        assert(digits_in(a) + digits_in(b) =~= digits_in(a));
    } else {
        lemma_digits_in_concat(a, b.drop_last());
        assert((a + b).drop_last() =~= a + b.drop_last());
        assert((a + b).last() == b.last());
        if is_ascii_digit(b.last()) {
            assert(digits_in(a) + digits_in(b) =~= (digits_in(a) + digits_in(b.drop_last())).push(b.last()));
        }
    }
}

/// A character that a written phone number may hold: a digit or one of `+- ().`.
pub open spec fn phone_text_char(c: char) -> bool {
    ('0' <= c && c <= '9') || c == '+' || c == '-' || c == ' ' || c == '(' || c == ')' || c == '.'
}

/// A mainland mobile number is a phone sample, with or without the country
/// code 86 in front: where `p` is made of digits and `+- ().` and holds eleven
/// digits starting with 1, and `code` is made of separators and the digits 8
/// and 6 (such as "+86 " or "86"), both `p` and `code + p` read as phones.
/// And a phone sample holds eleven digits starting with 1, or thirteen starting
/// with 861.
pub proof fn phone_numbers_with_country_code(p: Seq<char>, code: Seq<char>, s: Seq<char>)
    ensures
        (forall|i: int| 0 <= i < p.len() ==> phone_text_char(#[trigger] p[i]))
            && digits_in(p).len() == 11 && digits_in(p)[0] == '1' ==> is_phone_like(p),
        (forall|i: int| 0 <= i < p.len() ==> phone_text_char(#[trigger] p[i]))
            && digits_in(p).len() == 11 && digits_in(p)[0] == '1' && (forall|i: int|
            0 <= i < code.len() ==> phone_text_char(#[trigger] code[i]))
            && digits_in(code) == seq!['8', '6'] ==> is_phone_like(code + p),
        is_phone_like(s) ==> forall|i: int| 0 <= i < s.len() ==> phone_text_char(#[trigger] s[i]),
        is_phone_like(s) ==> (digits_in(s).len() == 11 && digits_in(s)[0] == '1') || (digits_in(
            s,
        ).len() == 13 && digits_in(s)[0] == '8' && digits_in(s)[1] == '6' && digits_in(s)[2]
            == '1'),
{
    lemma_digits_in_concat(code, p);
    let d = digits_in(code + p);
    if digits_in(code) == seq!['8', '6'] && digits_in(p).len() == 11 && (forall|i: int|
        0 <= i < p.len() ==> phone_text_char(#[trigger] p[i])) && (forall|i: int|
        0 <= i < code.len() ==> phone_text_char(#[trigger] code[i])) {
        assert(d =~= seq!['8', '6'] + digits_in(p));
        assert(d.skip(2) =~= digits_in(p));
        assert forall|i: int| 0 <= i < (code + p).len() implies is_ascii_digit(#[trigger] (code + p)[i])
            || phone_separator((code + p)[i]) by {
            assert(phone_text_char((code + p)[i]) || !phone_text_char((code + p)[i]));
            if i < code.len() {
                assert((code + p)[i] == code[i]);
            } else {
                assert((code + p)[i] == p[i - code.len()]);
            }
        }
    }
    if digits_in(p).len() == 11 {
        assert(!(starts_with_86(digits_in(p)) && digits_in(p).len() == 13));
    }
    let ds = digits_in(s);
    if starts_with_86(ds) && ds.len() == 13 {
        assert(ds.skip(2)[0] == ds[2]);
    }
}

pub fn looks_like_phone(sample: &str) -> (r: bool)
    ensures
        r == is_phone_like(sample@),
{
    let s = chars_of(sample);
    let mut digits: Vec<char> = Vec::new();
    let mut i: usize = 0;
    while i < s.len()
        invariant
            i <= s@.len(),
            s@ == sample@,
            digits@ == digits_in(s@.take(i as int)),
            forall|k: int| 0 <= k < i ==> is_ascii_digit(#[trigger] s@[k]) || phone_separator(s@[k]),
        decreases s@.len() - i,
    {
        assert(s@.take(i + 1).drop_last() =~= s@.take(i as int));
        let c = s[i];
        if ascii_digit(c) {
            digits.push(c);
        } else if c == '+' || c == '-' || c == ' ' || c == '(' || c == ')' || c == '.' {
        } else {
            return false;
        }
        i = i + 1;
    }
    assert(s@.take(i as int) =~= s@);
    let rest = if digits.len() == 13 && digits[0] == '8' && digits[1] == '6' {
        slice_chars(digits.as_slice(), 2, digits.len())
    } else {
        digits
    };
    assert(rest@ =~= (if starts_with_86(digits@) && digits@.len() == 13 {
        digits@.skip(2)
    } else {
        digits@
    }));
    rest.len() == 11 && rest[0] == '1'
}

/// Between 8 and 32 ASCII digits.
pub open spec fn is_long_id_like(s: Seq<char>) -> bool {
    8 <= s.len() <= 32 && forall|i: int| 0 <= i < s.len() ==> is_ascii_digit(#[trigger] s[i])
}

pub fn looks_like_long_id(sample: &str) -> (r: bool)
    ensures
        r == is_long_id_like(sample@),
{
    let s = chars_of(sample);
    8 <= s.len() && s.len() <= 32 && all_chars_digits(s.as_slice())
}

/// The kind of a sample value, tested on the trimmed value in the order email,
/// date, phone, long id.
pub open spec fn kind_of(sample: Seq<char>) -> Option<ContentKind> {
    let s = trim(sample);
    if s.len() == 0 {
        None
    } else if is_email_like(s) {
        Some(ContentKind::Email)
    } else if is_date_like(s) {
        Some(ContentKind::Date)
    } else if is_phone_like(s) {
        Some(ContentKind::Phone)
    } else if is_long_id_like(s) {
        Some(ContentKind::LongId)
    } else {
        None
    }
}

pub fn detect_kind(sample: &str) -> (r: Option<ContentKind>)
    ensures
        r == kind_of(sample@),
{
    let sample = trim_str(sample);
    if sample.unicode_len() == 0 {
        return None;
    }
    if looks_like_email(sample) {
        return Some(ContentKind::Email);
    }
    if looks_like_date(sample) {
        return Some(ContentKind::Date);
    }
    if looks_like_phone(sample) {
        return Some(ContentKind::Phone);
    }
    if looks_like_long_id(sample) {
        return Some(ContentKind::LongId);
    }
    None
}

/// `a` and `b` are equal when ASCII letters are compared without case,
/// as `str::eq_ignore_ascii_case`.
pub open spec fn eq_ignore_ascii_case(a: Seq<char>, b: Seq<char>) -> bool {
    a.len() == b.len() && forall|i: int| 0 <= i < a.len() ==> ascii_lower(#[trigger] a[i]) == ascii_lower(b[i])
}

pub fn eq_ignore_ascii_case_chars(a: &[char], b: &[char]) -> (r: bool)
    ensures
        r == eq_ignore_ascii_case(a@, b@),
{
    if a.len() != b.len() {
        return false;
    }
    let mut i: usize = 0;
    while i < a.len()
        invariant
            i <= a@.len() == b@.len(),
            forall|k: int| 0 <= k < i ==> ascii_lower(#[trigger] a@[k]) == ascii_lower(b@[k]),
        decreases a@.len() - i,
    {
        if to_ascii_lower(a[i]) != to_ascii_lower(b[i]) {
            return false;
        }
        i = i + 1;
    }
    true
}

/// The header and the sample joined by a space, unless the trimmed header is
/// empty or equals the sample up to ASCII case.
pub open spec fn combo_of(header: Seq<char>, sample: Seq<char>) -> Option<Seq<char>> {
    let h = trim(header);
    if h.len() == 0 || eq_ignore_ascii_case(h, sample) {
        None
    } else {
        Some(h + seq![' '] + sample)
    }
}

pub fn combo_text(header: &str, sample: &str) -> (r: Option<String>)
    ensures
        match combo_of(header@, sample@) {
            Some(t) => r matches Some(s) && s@ == t,
            None => r is None,
        },
{
    let h = trim_chars(chars_of(header).as_slice());
    let s = chars_of(sample);
    if h.len() == 0 || eq_ignore_ascii_case_chars(h.as_slice(), s.as_slice()) {
        None
    } else {
        let space = vec![' '];
        let hs = concat(h.as_slice(), space.as_slice());
        let all = concat(hs.as_slice(), s.as_slice());
        assert(space@ =~= seq![' ']);
        Some(string_of(all.as_slice()))
    }
}

/// The trimmed token is long enough (four characters if all ASCII, else two)
/// and occurs in the trimmed header.
pub open spec fn token_in(token: Seq<char>, header: Seq<char>) -> bool {
    let t = trim(token);
    let h = trim(header);
    let min_len: int = if forall|i: int| 0 <= i < t.len() ==> is_ascii(#[trigger] t[i]) {
        4
    } else {
        2
    };
    t.len() > 0 && h.len() > 0 && t.len() >= min_len && contains_seq(h, t)
}

pub fn token_in_header(token: &str, header: &str) -> (r: bool)
    ensures
        r == token_in(token@, header@),
{
    let t = trim_chars(chars_of(token).as_slice());
    let h = trim_chars(chars_of(header).as_slice());
    if t.len() == 0 || h.len() == 0 {
        return false;
    }
    let mut all_ascii = true;
    let mut i: usize = 0;
    while i < t.len()
        invariant
            i <= t@.len(),
            all_ascii == forall|k: int| 0 <= k < i ==> is_ascii(#[trigger] t@[k]),
        decreases t@.len() - i,
    {
        if !ascii_char(t[i]) {
            all_ascii = false;
        }
        i = i + 1;
    }
    let min_len: usize = if all_ascii {
        4
    } else {
        2
    };
    t.len() >= min_len && contains_chars(h.as_slice(), t.as_slice())
}

} // verus!
