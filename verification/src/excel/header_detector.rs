//! Heuristic header-row detection. Does not use embeddings.
//!
//! The detector describes each candidate row by counts (`RowFeatures`); the
//! weighting of those counts into a score is floating-point arithmetic and is
//! done by the caller.
use vstd::prelude::*;

use crate::text::{
    ascii_lower, chars_of, is_ascii_digit, rows_view, seq_eq, string_of, strings_view, to_ascii_lower,
    trim, trim_chars,
};

verus! {

/// Rows scanned for a header.
pub const SCAN_ROWS: usize = 15;

// ---------------------------------------------------------------- numbers

/// Every character of `d` is an ASCII digit.
pub open spec fn digits_only(d: Seq<char>) -> bool {
    forall|k: int| 0 <= k < d.len() ==> is_ascii_digit(#[trigger] d[k])
}

/// A decimal number without sign: digits, digits with a point, or a point with
/// digits, then an optional exponent `e[+-]digits`.
pub open spec fn is_decimal_number(b: Seq<char>) -> bool {
    let e = crate::text::first_index_of(b, 'e');
    let mantissa = match e {
        Some(i) => b.take(i),
        None => b,
    };
    let exp_ok = match e {
        Some(i) => {
            let x = b.skip(i + 1);
            let digits = if x.len() > 0 && (x[0] == '+' || x[0] == '-') {
                x.drop_first()
            } else {
                x
            };
            digits.len() > 0 && digits_only(digits)
        },
        None => true,
    };
    let mantissa_ok = match crate::text::first_index_of(mantissa, '.') {
        None => mantissa.len() > 0 && digits_only(mantissa),
        Some(d) => {
            let int_part = mantissa.take(d);
            let frac = mantissa.skip(d + 1);
            digits_only(int_part) && digits_only(frac) && (int_part.len() > 0 || frac.len() > 0)
        },
    };
    exp_ok && mantissa_ok
}

#[verifier::opaque]
/// Text that `f64::from_str` accepts: after ASCII lower-casing, an optional sign
/// followed by `inf`, `infinity`, `nan` or a decimal number.
pub open spec fn is_float_literal(s: Seq<char>) -> bool {
    let l = s.map_values(|c: char| ascii_lower(c));
    let body = if l.len() > 0 && (l[0] == '+' || l[0] == '-') {
        l.drop_first()
    } else {
        l
    };
    body == "inf"@ || body == "infinity"@ || body == "nan"@ || is_decimal_number(body)
}

/// How many characters of `s` are ASCII digits.
pub open spec fn digit_count(s: Seq<char>) -> nat
    decreases s.len(),
{
    if s.len() == 0 {
        0
    } else {
        digit_count(s.drop_last()) + if is_ascii_digit(s.last()) {
            1nat
        } else {
            0nat
        }
    }
}

/// A cell reads as a number: its trimmed text is a float literal, or more than
/// 55% of its characters are digits.
pub open spec fn numeric_like(value: Seq<char>) -> bool {
    let t = trim(value);
    t.len() > 0 && (is_float_literal(t) || digit_count(t) * 20 > t.len() * 11)
}

fn digits_only_exec(d: &[char]) -> (r: bool)
    ensures
        r == digits_only(d@),
{
    let mut i: usize = 0;
    while i < d.len()
        invariant
            i <= d@.len(),
            forall|k: int| 0 <= k < i ==> is_ascii_digit(#[trigger] d@[k]),
        decreases d@.len() - i,
    {
        if !('0' <= d[i] && d[i] <= '9') {
            return false;
        }
        i = i + 1;
    }
    true
}

fn decimal_number(b: &[char]) -> (r: bool)
    ensures
        r == is_decimal_number(b@),
{
    let e = crate::text::find_char(b, 'e');
    let mantissa = match e {
        Some(i) => crate::text::slice_chars(b, 0, i),
        None => crate::text::slice_chars(b, 0, b.len()),
    };
    assert(mantissa@ =~= match e {
        Some(i) => b@.take(i as int),
        None => b@,
    });
    let exp_ok = match e {
        Some(i) => {
            assert(i < b.len());
            let x = crate::text::slice_chars(b, i + 1, b.len());
            assert(x@ =~= b@.skip(i + 1));
            let digits = if x.len() > 0 && (x[0] == '+' || x[0] == '-') {
                crate::text::slice_chars(x.as_slice(), 1, x.len())
            } else {
                x
            };
            assert(digits@ =~= (if x@.len() > 0 && (x@[0] == '+' || x@[0] == '-') {
                x@.drop_first()
            } else {
                x@
            }));
            digits.len() > 0 && digits_only_exec(digits.as_slice())
        },
        None => true,
    };
    let mantissa_ok = match crate::text::find_char(mantissa.as_slice(), '.') {
        None => mantissa.len() > 0 && digits_only_exec(mantissa.as_slice()),
        Some(d) => {
            let int_part = crate::text::slice_chars(mantissa.as_slice(), 0, d);
            let frac = crate::text::slice_chars(mantissa.as_slice(), d + 1, mantissa.len());
            assert(int_part@ =~= mantissa@.take(d as int));
            assert(frac@ =~= mantissa@.skip(d + 1));
            digits_only_exec(int_part.as_slice()) && digits_only_exec(frac.as_slice()) && (
            int_part.len() > 0 || frac.len() > 0)
        },
    };
    exp_ok && mantissa_ok
}

fn float_literal(s: &[char]) -> (r: bool)
    ensures
        r == is_float_literal(s@),
{
    reveal(is_float_literal);
    let mut l: Vec<char> = Vec::new();
    let mut i: usize = 0;
    while i < s.len()
        invariant
            i <= s@.len(),
            l@ == s@.take(i as int).map_values(|c: char| ascii_lower(c)),
        decreases s@.len() - i,
    {
        l.push(to_ascii_lower(s[i]));
        i = i + 1;
        assert(l@ =~= s@.take(i as int).map_values(|c: char| ascii_lower(c)));
    }
    assert(s@.take(i as int) =~= s@);
    let body = if l.len() > 0 && (l[0] == '+' || l[0] == '-') {
        crate::text::slice_chars(l.as_slice(), 1, l.len())
    } else {
        l
    };
    assert(body@ =~= (if l@.len() > 0 && (l@[0] == '+' || l@[0] == '-') {
        l@.drop_first()
    } else {
        l@
    }));
    let inf = chars_of("inf");
    let infinity = chars_of("infinity");
    let nan = chars_of("nan");
    seq_eq(body.as_slice(), inf.as_slice()) || seq_eq(body.as_slice(), infinity.as_slice())
        || seq_eq(body.as_slice(), nan.as_slice()) || decimal_number(body.as_slice())
}

#[verifier::rlimit(30)]
pub fn is_numeric_like(value: &str) -> (r: bool)
    ensures
        r == numeric_like(value@),
{
    let t = trim_chars(chars_of(value).as_slice());
    if t.len() == 0 {
        return false;
    }
    let float = float_literal(t.as_slice());
    if float {
        return true;
    }
    let mut digits: usize = 0;
    let mut i: usize = 0;
    while i < t.len()
        invariant
            i <= t@.len(),
            digits == digit_count(t@.take(i as int)),
            digits <= i,
        decreases t@.len() - i,
    {
        assert(t@.take(i + 1).drop_last() =~= t@.take(i as int));
        if '0' <= t[i] && t[i] <= '9' {
            digits = digits + 1;
        }
        i = i + 1;
    }
    assert(t@.take(i as int) =~= t@);
    (digits as u128) * 20 > (t.len() as u128) * 11
}

// ---------------------------------------------------------------- cells of a row

/// The trimmed cells of `row` that are not blank, in order.
pub open spec fn nonempty_of(row: Seq<Seq<char>>) -> Seq<Seq<char>>
    decreases row.len(),
{
    if row.len() == 0 {
        Seq::empty()
    } else if trim(row.last()).len() > 0 {
        nonempty_of(row.drop_last()).push(trim(row.last()))
    } else {
        nonempty_of(row.drop_last())
    }
}

proof fn lemma_nonempty_of_len(row: Seq<Seq<char>>)
    ensures
        nonempty_of(row).len() <= row.len(),
    decreases row.len(),
{
    if row.len() > 0 {
        lemma_nonempty_of_len(row.drop_last());
    }
}

pub fn nonempty_cells(row: &Vec<String>) -> (r: Vec<String>)
    ensures
        strings_view(r@) == nonempty_of(strings_view(row@)),
{
    let ghost rv = strings_view(row@);
    let mut out: Vec<String> = Vec::new();
    let mut i: usize = 0;
    while i < row.len()
        invariant
            i <= row@.len(),
            rv == strings_view(row@),
            strings_view(out@) == nonempty_of(rv.take(i as int)),
        decreases row@.len() - i,
    {
        assert(rv.take(i + 1).drop_last() =~= rv.take(i as int));
        assert(rv.take(i + 1).last() == row@[i as int]@);
        let cell = trim_chars(chars_of(row[i].as_str()).as_slice());
        if cell.len() > 0 {
            let ghost before = out@;
            out.push(string_of(cell.as_slice()));
            assert(strings_view(out@) =~= strings_view(before).push(cell@));
        }
        i = i + 1;
    }
    assert(rv.take(i as int) =~= rv);
    out
}

/// (longest run so far, current run) of non-blank cells.
pub open spec fn runs(row: Seq<Seq<char>>) -> (nat, nat)
    decreases row.len(),
{
    if row.len() == 0 {
        (0, 0)
    } else {
        let (best, current) = runs(row.drop_last());
        if trim(row.last()).len() == 0 {
            (if best >= current {
                best
            } else {
                current
            }, 0)
        } else {
            (best, current + 1)
        }
    }
}

/// The length of the longest run of non-blank cells in `row`.
pub open spec fn longest_run(row: Seq<Seq<char>>) -> nat {
    let (best, current) = runs(row);
    if best >= current {
        best
    } else {
        current
    }
}

/// Cells `i` to `j` (inclusive) of `row` all hold more than white space.
pub open spec fn non_blank_between(row: Seq<Seq<char>>, i: int, j: int) -> bool {
    0 <= i <= j < row.len() && forall|k: int| i <= k <= j ==> trim(#[trigger] row[k]).len() > 0
}

proof fn lemma_nb_init(row: Seq<Seq<char>>, i: int, j: int)
    requires
        row.len() > 0,
    ensures
        non_blank_between(row.drop_last(), i, j) ==> non_blank_between(row, i, j),
        non_blank_between(row, i, j) && j < row.len() - 1 ==> non_blank_between(row.drop_last(), i, j),
{
    let init = row.drop_last();
    if non_blank_between(init, i, j) {
        assert forall|k: int| i <= k <= j implies trim(#[trigger] row[k]).len() > 0 by {
            assert(init[k] == row[k]);
        }
    }
    if non_blank_between(row, i, j) && j < row.len() - 1 {
        assert forall|k: int| i <= k <= j implies trim(#[trigger] init[k]).len() > 0 by {
            assert(init[k] == row[k]);
        }
    }
}

proof fn lemma_runs_facts(row: Seq<Seq<char>>)
    ensures
        runs(row).1 <= row.len(),
        forall|k: int| row.len() - runs(row).1 <= k < row.len() ==> trim(#[trigger] row[k]).len() > 0,
        runs(row).1 < row.len() ==> trim(row[row.len() - runs(row).1 - 1]).len() == 0,
        runs(row).1 > 0 ==> non_blank_between(row, row.len() - runs(row).1, row.len() - 1),
        runs(row).0 > 0 ==> exists|i: int, j: int|
            non_blank_between(row, i, j) && j - i + 1 == runs(row).0,
        forall|i: int, j: int|
            #[trigger] non_blank_between(row, i, j) ==> j - i + 1 <= (if runs(row).0 >= runs(row).1 {
                runs(row).0
            } else {
                runs(row).1
            }),
    decreases row.len(),
{
    if row.len() > 0 {
        let init = row.drop_last();
        lemma_runs_facts(init);
        let (b, c) = runs(init);
        let n = row.len();
        assert forall|k: int| 0 <= k < init.len() implies #[trigger] init[k] == row[k] by {}
        if c > 0 {
            assert(non_blank_between(init, init.len() - c, init.len() - 1));
        }
        if trim(row.last()).len() == 0 {
            assert forall|i: int, j: int| #[trigger] non_blank_between(row, i, j) implies j - i + 1 <= (
            if runs(row).0 >= runs(row).1 {
                runs(row).0
            } else {
                runs(row).1
            }) by {
                if j == n - 1 {
                    assert(trim(row[n - 1]).len() > 0);
                }
                lemma_nb_init(row, i, j);
            }
            if runs(row).0 > 0 {
                if b >= c {
                    let (i, j) = choose|i: int, j: int| non_blank_between(init, i, j) && j - i + 1 == b;
                    lemma_nb_init(row, i, j);
                } else {
                    lemma_nb_init(row, init.len() - c, init.len() - 1);
                }
            }
        } else {
            assert forall|i: int, j: int| #[trigger] non_blank_between(row, i, j) implies j - i + 1 <= (
            if runs(row).0 >= runs(row).1 {
                runs(row).0
            } else {
                runs(row).1
            }) by {
                if j < n - 1 {
                    lemma_nb_init(row, i, j);
                } else if i < n - 1 {
                    lemma_nb_init(row, i, n - 2);
                    assert(non_blank_between(row, i, n - 2));
                    assert(non_blank_between(init, i, n - 2));
                    if c < init.len() - i {
                        assert(trim(init[init.len() - c - 1]).len() == 0);
                    }
                }
            }
            if b > 0 {
                let (i, j) = choose|i: int, j: int| non_blank_between(init, i, j) && j - i + 1 == b;
                lemma_nb_init(row, i, j);
            }
            assert forall|k: int| n - (c + 1) <= k <= n - 1 implies trim(#[trigger] row[k]).len() > 0 by {
                if k < n - 1 {
                    assert(init[k] == row[k]);
                }
            }
            assert(non_blank_between(row, n - (c + 1), n - 1));
        }
    }
}

/// The longest run counts every run of non-blank cells: it is at least as
/// long as each stretch of consecutive non-blank cells, and is the length of
/// one of them (or 0 where the row has no non-blank cell).
pub proof fn longest_run_is_longest(row: Seq<Seq<char>>)
    ensures
        forall|i: int, j: int| #[trigger] non_blank_between(row, i, j) ==> longest_run(row) >= j - i + 1,
        longest_run(row) == 0 || exists|i: int, j: int|
            non_blank_between(row, i, j) && j - i + 1 == longest_run(row),
{
    lemma_runs_facts(row);
}

proof fn lemma_runs_bounded(row: Seq<Seq<char>>)
    ensures
        runs(row).0 <= row.len(),
        runs(row).1 <= row.len(),
    decreases row.len(),
{
    if row.len() > 0 {
        lemma_runs_bounded(row.drop_last());
    }
}

pub fn consecutive_non_empty(row: &Vec<String>) -> (r: usize)
    ensures
        r == longest_run(strings_view(row@)),
{
    let ghost rv = strings_view(row@);
    let mut best: usize = 0;
    let mut current: usize = 0;
    let mut i: usize = 0;
    while i < row.len()
        invariant
            i <= row@.len(),
            rv == strings_view(row@),
            (best as nat, current as nat) == runs(rv.take(i as int)),
            best <= i,
            current <= i,
        decreases row@.len() - i,
    {
        assert(rv.take(i + 1).drop_last() =~= rv.take(i as int));
        assert(rv.take(i + 1).last() == row@[i as int]@);
        let (lo, hi) = crate::text::trim_bounds(chars_of(row[i].as_str()).as_slice());
        if lo == hi {
            if current > best {
                best = current;
            }
            current = 0;
        } else {
            current = current + 1;
        }
        i = i + 1;
    }
    assert(rv.take(i as int) =~= rv);
    if best >= current {
        best
    } else {
        current
    }
}

/// How many different values `cells` holds.
pub open spec fn distinct_count(cells: Seq<Seq<char>>) -> nat
    decreases cells.len(),
{
    if cells.len() == 0 {
        0
    } else {
        distinct_count(cells.drop_last()) + if cells.drop_last().contains(cells.last()) {
            0nat
        } else {
            1nat
        }
    }
}

fn count_distinct(cells: &Vec<String>) -> (r: usize)
    ensures
        r == distinct_count(strings_view(cells@)),
{
    let ghost cv = strings_view(cells@);
    let mut n: usize = 0;
    let mut i: usize = 0;
    while i < cells.len()
        invariant
            i <= cells@.len(),
            cv == strings_view(cells@),
            n == distinct_count(cv.take(i as int)),
            n <= i,
        decreases cells@.len() - i,
    {
        let ghost prefix = cv.take(i as int);
        assert(cv.take(i + 1).drop_last() =~= prefix);
        assert(cv.take(i + 1).last() == cells@[i as int]@);
        let mut seen = false;
        let mut j: usize = 0;
        while j < i
            invariant
                j <= i < cells@.len(),
                cv == strings_view(cells@),
                prefix == cv.take(i as int),
                seen == exists|k: int| 0 <= k < j && prefix[k] == cv[i as int],
            decreases i - j,
        {
            if cells[j] == cells[i] {
                assert(prefix[j as int] == cv[i as int]);
                seen = true;
            } else {
                assert(prefix[j as int] != cv[i as int]);
            }
            j = j + 1;
        }
        if !seen {
            assert(!prefix.contains(cv[i as int]));
            n = n + 1;
        } else {
            proof {
                let k = choose|k: int| 0 <= k < j && prefix[k] == cv[i as int];
                assert(prefix.contains(cv[i as int]));
            }
        }
        i = i + 1;
    }
    assert(cv.take(i as int) =~= cv);
    n
}

/// How many of `cells` do not read as numbers.
pub open spec fn text_count(cells: Seq<Seq<char>>) -> nat
    decreases cells.len(),
{
    if cells.len() == 0 {
        0
    } else {
        text_count(cells.drop_last()) + if numeric_like(cells.last()) {
            0nat
        } else {
            1nat
        }
    }
}

fn count_text(cells: &Vec<String>) -> (r: usize)
    ensures
        r == text_count(strings_view(cells@)),
{
    let ghost cv = strings_view(cells@);
    let mut n: usize = 0;
    let mut i: usize = 0;
    while i < cells.len()
        invariant
            i <= cells@.len(),
            cv == strings_view(cells@),
            n == text_count(cv.take(i as int)),
            n <= i,
        decreases cells@.len() - i,
    {
        assert(cv.take(i + 1).drop_last() =~= cv.take(i as int));
        assert(cv.take(i + 1).last() == cells@[i as int]@);
        if !is_numeric_like(cells[i].as_str()) {
            n = n + 1;
        }
        i = i + 1;
    }
    assert(cv.take(i as int) =~= cv);
    n
}

/// The trimmed cell `i` of `row`, or empty beyond its end.
pub open spec fn cell_at(row: Seq<Seq<char>>, i: int) -> Seq<char> {
    if 0 <= i < row.len() {
        trim(row[i])
    } else {
        Seq::empty()
    }
}

/// Over positions `0..w` of two rows: (cells where the current row holds text and
/// the next row a number, positions where either row has a value).
pub open spec fn type_counts(current: Seq<Seq<char>>, next: Seq<Seq<char>>, w: int) -> (nat, nat)
    decreases w,
{
    if w <= 0 {
        (0, 0)
    } else {
        let (hits, compared) = type_counts(current, next, w - 1);
        let a = cell_at(current, w - 1);
        let b = cell_at(next, w - 1);
        if a.len() == 0 && b.len() == 0 {
            (hits, compared)
        } else if a.len() > 0 && !numeric_like(a) && numeric_like(b) {
            (hits + 1, compared + 1)
        } else {
            (hits, compared + 1)
        }
    }
}

proof fn lemma_type_counts_bounded(current: Seq<Seq<char>>, next: Seq<Seq<char>>, w: int)
    ensures
        type_counts(current, next, w).0 <= type_counts(current, next, w).1,
        w >= 0 ==> type_counts(current, next, w).1 <= w,
    decreases w,
{
    if w > 0 {
        lemma_type_counts_bounded(current, next, w - 1);
    }
}

fn trimmed_cell(row: &Vec<String>, i: usize) -> (r: Vec<char>)
    ensures
        r@ == cell_at(strings_view(row@), i as int),
{
    if i < row.len() {
        trim_chars(chars_of(row[i].as_str()).as_slice())
    } else {
        Vec::new()
    }
}

fn type_difference(current: &Vec<String>, next: &Vec<String>) -> (r: (usize, usize))
    ensures
        (r.0 as nat, r.1 as nat) == type_counts(
            strings_view(current@),
            strings_view(next@),
            if current@.len() >= next@.len() {
                current@.len() as int
            } else {
                next@.len() as int
            },
        ),
{
    let width = if current.len() >= next.len() {
        current.len()
    } else {
        next.len()
    };
    let mut hits: usize = 0;
    let mut compared: usize = 0;
    let mut i: usize = 0;
    while i < width
        invariant
            i <= width,
            (hits as nat, compared as nat) == type_counts(
                strings_view(current@),
                strings_view(next@),
                i as int,
            ),
            hits <= compared <= i,
        decreases width - i,
    {
        let a = trimmed_cell(current, i);
        let b = trimmed_cell(next, i);
        if a.len() == 0 && b.len() == 0 {
        } else {
            compared = compared + 1;
            let a_text = string_of(a.as_slice());
            let b_text = string_of(b.as_slice());
            proof {
                if i < current@.len() {
                    crate::text::lemma_trim_idempotent(strings_view(current@)[i as int]);
                }
                if i < next@.len() {
                    crate::text::lemma_trim_idempotent(strings_view(next@)[i as int]);
                }
                assert(trim(a@) == a@);
                assert(trim(b@) == b@);
            }
            if a.len() > 0 && !is_numeric_like(a_text.as_str()) && is_numeric_like(b_text.as_str()) {
                hits = hits + 1;
            }
        }
        i = i + 1;
    }
    (hits, compared)
}

// ---------------------------------------------------------------- rows around a candidate

/// The number of non-blank cells in row `i`.
pub open spec fn width_of(rows: Seq<Seq<Seq<char>>>, i: int) -> nat {
    nonempty_of(rows[i]).len()
}

/// Among rows `lo..hi`, how many have at least `min_width` non-blank cells (and some).
pub open spec fn similar_rows(rows: Seq<Seq<Seq<char>>>, lo: int, hi: int, min_width: int) -> nat
    decreases hi - lo,
{
    if hi <= lo {
        0
    } else {
        similar_rows(rows, lo, hi - 1, min_width) + if width_of(rows, hi - 1) >= min_width
            && width_of(rows, hi - 1) > 0 {
            1nat
        } else {
            0nat
        }
    }
}

/// The largest number of non-blank cells among rows `lo..hi` (0 if none).
pub open spec fn max_width(rows: Seq<Seq<Seq<char>>>, lo: int, hi: int) -> nat
    decreases hi - lo,
{
    if hi <= lo {
        0
    } else {
        let m = max_width(rows, lo, hi - 1);
        if width_of(rows, hi - 1) > m {
            width_of(rows, hi - 1)
        } else {
            m
        }
    }
}

pub open spec fn min_int(a: int, b: int) -> int {
    if a <= b {
        a
    } else {
        b
    }
}

/// How a row's width compares with its neighbours'.
#[derive(Debug, Clone, Copy, PartialEq, Eq, Structural)]
pub enum ExtraColumns {
    /// Wider than both neighbours, with three or more cells.
    Wider,
    /// At most one cell narrower than its neighbours, with two or more cells.
    Close,
    /// Neither.
    Neither,
}

pub open spec fn extra_columns_of(rows: Seq<Seq<Seq<char>>>, index: int, scan_len: int) -> ExtraColumns {
    let current = width_of(rows, index);
    let before: nat = if index > 0 {
        width_of(rows, index - 1)
    } else {
        0
    };
    let after: nat = if index + 1 < scan_len {
        width_of(rows, index + 1)
    } else {
        0
    };
    let neighbor_max = if before >= after {
        before
    } else {
        after
    };
    if current > neighbor_max && current >= 3 {
        ExtraColumns::Wider
    } else if current + 1 >= neighbor_max && current >= 2 {
        ExtraColumns::Close
    } else {
        ExtraColumns::Neither
    }
}

/// A title row: one or two cells, with a row of at least two more cells among
/// the next three scanned rows, or a single cell of eight or more characters.
pub open spec fn title_like(rows: Seq<Seq<Seq<char>>>, index: int, scan_len: int) -> bool {
    let cells = nonempty_of(rows[index]);
    if cells.len() == 0 || cells.len() > 2 {
        false
    } else if max_width(rows, index + 1, min_int(scan_len, index + 4)) >= cells.len() + 2 {
        true
    } else {
        cells.len() == 1 && cells[0].len() >= 8
    }
}

/// The counts that describe a candidate header row.
#[derive(Debug, Clone, Copy)]
pub struct RowFeatures {
    /// Cells in the row, blank or not.
    pub width: usize,
    /// Non-blank cells.
    pub nonempty: usize,
    /// Non-blank cells that do not read as numbers.
    pub text_cells: usize,
    /// Different non-blank values.
    pub unique_cells: usize,
    /// The longest run of non-blank cells.
    pub consecutive: usize,
    /// There is a row after this one.
    pub has_next: bool,
    /// Positions where this row holds text and the next row a number.
    pub type_hits: usize,
    /// Positions where this row or the next holds a value.
    pub type_compared: usize,
    /// Of the next four scanned rows, those about as wide as this one.
    pub similar_below: usize,
    pub extra_columns: ExtraColumns,
    pub looks_like_title: bool,
}

pub struct HeaderDetector;

fn row_width(rows: &Vec<Vec<String>>, i: usize) -> (r: usize)
    requires
        i < rows@.len(),
    ensures
        r == width_of(rows_view(rows@), i as int),
{
    let cells = nonempty_cells(&rows[i]);
    assert(rows_view(rows@)[i as int] == strings_view(rows@[i as int]@));
    cells.len()
}

/// Of the (up to four) scanned rows after row `index`, those about as wide as
/// its `nonempty` cells: at least one cell, and at most one cell fewer.
fn similar_rows_below(rows: &Vec<Vec<String>>, index: usize, scan_len: usize, nonempty: usize) -> (r:
    usize)
    requires
        index < scan_len <= rows@.len(),
    ensures
        r == similar_rows(
            rows_view(rows@),
            index + 1,
            min_int(scan_len as int, index + 5),
            if nonempty >= 1 {
                nonempty - 1
            } else {
                0
            },
        ),
{
    let ghost rv = rows_view(rows@);
    let min_width = if nonempty >= 1 {
        nonempty - 1
    } else {
        0
    };
    let end = if scan_len - index > 5 {
        index + 5
    } else {
        scan_len
    };
    let mut similar: usize = 0;
    let mut k: usize = index + 1;
    while k < end
        invariant
            index + 1 <= k <= end || (k == index + 1 && end <= index + 1),
            end <= scan_len <= rows@.len(),
            rv == rows_view(rows@),
            similar == similar_rows(rv, index + 1, k as int, min_width as int),
            similar <= k,
        decreases end - k,
    {
        let w = row_width(rows, k);
        if w >= min_width && w > 0 {
            similar = similar + 1;
        }
        k = k + 1;
    }
    proof {
        if end <= index + 1 {
            assert(similar_rows(rv, index + 1, end as int, min_width as int) == 0);
        }
    }
    similar
}

/// How row `index`, with `nonempty` non-blank cells, compares in width with
/// its scanned neighbours (see `extra_columns_of`).
fn extra_column_kind(rows: &Vec<Vec<String>>, index: usize, scan_len: usize, nonempty: usize) -> (r:
    ExtraColumns)
    requires
        index < scan_len <= rows@.len(),
        nonempty == width_of(rows_view(rows@), index as int),
    ensures
        r == extra_columns_of(rows_view(rows@), index as int, scan_len as int),
{
    let before = if index > 0 {
        row_width(rows, index - 1)
    } else {
        0
    };
    let after = if index + 1 < scan_len {
        row_width(rows, index + 1)
    } else {
        0
    };
    let neighbor_max = if before >= after {
        before
    } else {
        after
    };
    if nonempty > neighbor_max && nonempty >= 3 {
        ExtraColumns::Wider
    } else if (neighbor_max == 0 || neighbor_max - 1 <= nonempty) && nonempty >= 2 {
        ExtraColumns::Close
    } else {
        ExtraColumns::Neither
    }
}

/// Row `index`, whose non-blank cells are `cells`, reads as a title above the
/// table (see `title_like`).
pub fn looks_like_title(rows: &Vec<Vec<String>>, cells: &Vec<String>, index: usize, scan_len: usize) -> (r:
    bool)
    requires
        index < scan_len <= rows@.len(),
        strings_view(cells@) == nonempty_of(rows_view(rows@)[index as int]),
    ensures
        r == title_like(rows_view(rows@), index as int, scan_len as int),
{
    let ghost rv = rows_view(rows@);
    let nonempty = cells.len();
    if nonempty == 0 || nonempty > 2 {
        return false;
    }
    let title_end = if scan_len - index > 4 {
        index + 4
    } else {
        scan_len
    };
    let mut later_max: usize = 0;
    let mut q: usize = index + 1;
    while q < title_end
        invariant
            index + 1 <= q <= title_end || (q == index + 1 && title_end <= index + 1),
            title_end <= scan_len <= rows@.len(),
            rv == rows_view(rows@),
            later_max == max_width(rv, index + 1, q as int),
        decreases title_end - q,
    {
        let w = row_width(rows, q);
        if w > later_max {
            later_max = w;
        }
        q = q + 1;
    }
    proof {
        if title_end <= index + 1 {
            assert(max_width(rv, index + 1, title_end as int) == 0);
        }
    }
    if later_max >= nonempty + 2 {
        true
    } else {
        assert(strings_view(cells@)[0] == cells@[0]@);
        nonempty == 1 && cells[0].as_str().unicode_len() >= 8
    }
}

impl HeaderDetector {
    /// The rows that are scanned for a header: at most the first fifteen.
    pub fn scan_len(rows: &Vec<Vec<String>>) -> (r: usize)
        ensures
            r == min_int(rows@.len() as int, SCAN_ROWS as int),
    {
        if rows.len() < SCAN_ROWS {
            rows.len()
        } else {
            SCAN_ROWS
        }
    }

    /// The non-blank cells of a row, trimmed: the headers of a detected header row.
    pub fn headers_of(rows: &Vec<Vec<String>>, index: usize) -> (r: Vec<String>)
        requires
            index < rows@.len(),
        ensures
            strings_view(r@) == nonempty_of(rows_view(rows@)[index as int]),
    {
        assert(rows_view(rows@)[index as int] == strings_view(rows@[index as int]@));
        nonempty_cells(&rows[index])
    }

    /// Describes row `index` (0-based) among the first `scan_len` rows.
    pub fn row_features(rows: &Vec<Vec<String>>, index: usize, scan_len: usize) -> (r: RowFeatures)
        requires
            index < scan_len <= rows@.len(),
        ensures
            ({
                let rv = rows_view(rows@);
                let row = rv[index as int];
                let cells = nonempty_of(row);
                let next_width = if index + 1 < rows@.len() {
                    if row.len() >= rv[index + 1].len() {
                        row.len() as int
                    } else {
                        rv[index + 1].len() as int
                    }
                } else {
                    0
                };
                let counts = if index + 1 < rows@.len() {
                    type_counts(row, rv[index + 1], next_width)
                } else {
                    (0nat, 0nat)
                };
                let hw = cells.len() as int;
                &&& r.width == row.len()
                &&& r.nonempty == cells.len()
                &&& r.text_cells == text_count(cells)
                &&& r.unique_cells == distinct_count(cells)
                &&& r.consecutive == longest_run(row)
                &&& r.has_next == (index + 1 < rows@.len())
                &&& r.type_hits == counts.0
                &&& r.type_compared == counts.1
                &&& r.similar_below == similar_rows(
                    rv,
                    index + 1,
                    min_int(scan_len as int, index + 5),
                    if hw >= 1 {
                        hw - 1
                    } else {
                        0
                    },
                )
                &&& r.extra_columns == extra_columns_of(rv, index as int, scan_len as int)
                &&& r.looks_like_title == title_like(rv, index as int, scan_len as int)
            }),
    {
        let ghost rv = rows_view(rows@);
        let row = &rows[index];
        assert(rv[index as int] == strings_view(row@));
        let cells = nonempty_cells(row);
        let nonempty = cells.len();
        let text_cells = count_text(&cells);
        let unique_cells = count_distinct(&cells);
        let consecutive = consecutive_non_empty(row);
        let has_next = index + 1 < rows.len();
        let (type_hits, type_compared) = if has_next {
            assert(rv[index + 1] == strings_view(rows@[index + 1]@));
            type_difference(row, &rows[index + 1])
        } else {
            (0, 0)
        };
        let similar = similar_rows_below(rows, index, scan_len, nonempty);
        let extra_columns = extra_column_kind(rows, index, scan_len, nonempty);
        let looks_like_title = looks_like_title(rows, &cells, index, scan_len);
        RowFeatures {
            width: row.len(),
            nonempty,
            text_cells,
            unique_cells,
            consecutive,
            has_next,
            type_hits,
            type_compared,
            similar_below: similar,
            extra_columns,
            looks_like_title,
        }
    }
}

} // verus!
