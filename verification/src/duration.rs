//! Parsing and ordering of elapsed-time tokens.
//!
//! A token taken from a test-log line consists of digits and dots. It is a
//! number when it has at most one dot and at least one digit; it is then kept
//! as a normalized decimal (see [`crate::records::dur_wf`]), on which plain
//! lexicographic comparison coincides with numeric comparison.
use vstd::prelude::*;

use crate::bytes::{is_digit, is_digit_or_dot, lemma_scan_while, lemma_scan_while_unique,
    scan_while, copy_range};
use crate::records::{dur_wf, dur_zero, Duration, DurationV};

verus! {

/// Lexicographic strict order on digit strings; a proper prefix is smaller.
///
/// On integer parts of equal length, and on fractional parts with no trailing
/// zeros, this is exactly the numeric order.
pub open spec fn seq_lt(a: Seq<u8>, b: Seq<u8>) -> bool
    decreases a.len(),
{
    if b.len() == 0 {
        false
    } else if a.len() == 0 {
        true
    } else if a[0] < b[0] {
        true
    } else if a[0] > b[0] {
        false
    } else {
        seq_lt(a.subrange(1, a.len() as int), b.subrange(1, b.len() as int))
    }
}

/// Two digit strings are either ordered one way or equal.
pub proof fn lemma_seq_lt_trichotomy(a: Seq<u8>, b: Seq<u8>)
    ensures
        seq_lt(a, b) || seq_lt(b, a) || a == b,
    decreases a.len(),
{
    if a.len() == 0 && b.len() == 0 {
        assert(a =~= b);
    } else if a.len() > 0 && b.len() > 0 && a[0] == b[0] {
        let at = a.subrange(1, a.len() as int);
        let bt = b.subrange(1, b.len() as int);
        lemma_seq_lt_trichotomy(at, bt);
        if !seq_lt(a, b) && !seq_lt(b, a) {
            assert(at == bt);
            assert forall|i: int| 0 <= i < a.len() implies a[i] == b[i] by {
                if i > 0 {
                    assert(a[i] == at[i - 1]);
                    assert(b[i] == bt[i - 1]);
                }
            }
            assert(a =~= b);
        }
    }
}

/// The order is asymmetric.
pub proof fn lemma_seq_lt_asymmetric(a: Seq<u8>, b: Seq<u8>)
    ensures
        !(seq_lt(a, b) && seq_lt(b, a)),
    decreases a.len(),
{
    if a.len() > 0 && b.len() > 0 && a[0] == b[0] {
        lemma_seq_lt_asymmetric(
            a.subrange(1, a.len() as int),
            b.subrange(1, b.len() as int),
        );
    }
}

/// The order is transitive.
pub proof fn lemma_seq_lt_transitive(a: Seq<u8>, b: Seq<u8>, c: Seq<u8>)
    requires
        seq_lt(a, b),
        seq_lt(b, c),
    ensures
        seq_lt(a, c),
    decreases a.len() + b.len() + c.len(),
{
    if a.len() > 0 && b.len() > 0 && c.len() > 0 && a[0] == b[0] && b[0] == c[0] {
        lemma_seq_lt_transitive(
            a.subrange(1, a.len() as int),
            b.subrange(1, b.len() as int),
            c.subrange(1, c.len() as int),
        );
    }
}

/// A shared prefix does not influence the order.
pub proof fn lemma_seq_lt_skip(a: Seq<u8>, b: Seq<u8>, i: int)
    requires
        0 <= i <= a.len(),
        i <= b.len(),
        forall|k: int| 0 <= k < i ==> a[k] == b[k],
    ensures
        seq_lt(a, b) == seq_lt(a.skip(i), b.skip(i)),
    decreases i,
{
    if i > 0 {
        let at = a.subrange(1, a.len() as int);
        let bt = b.subrange(1, b.len() as int);
        lemma_seq_lt_skip(at, bt, i - 1);
        assert(at.skip(i - 1) =~= a.skip(i));
        assert(bt.skip(i - 1) =~= b.skip(i));
    } else {
        assert(a.skip(0) =~= a);
        assert(b.skip(0) =~= b);
    }
}

/// Decide `seq_lt` on two byte vectors.
pub fn bytes_lt(a: &Vec<u8>, b: &Vec<u8>) -> (r: bool)
    ensures
        r == seq_lt(a@, b@),
{
    let min: usize = if a.len() < b.len() {
        a.len()
    } else {
        b.len()
    };
    let mut i: usize = 0;
    while i < min && a[i] == b[i]
        invariant
            0 <= i <= min,
            min == if a@.len() < b@.len() { a@.len() } else { b@.len() },
            forall|k: int| 0 <= k < i ==> a@[k] == b@[k],
        decreases min - i,
    {
        i += 1;
    }
    proof {
        lemma_seq_lt_skip(a@, b@, i as int);
    }
    if i < min {
        proof {
            assert(a@.skip(i as int)[0] == a@[i as int]);
            assert(b@.skip(i as int)[0] == b@[i as int]);
        }
        a[i] < b[i]
    } else {
        proof {
            if a@.len() <= b@.len() {
                assert(a@.skip(i as int).len() == 0);
            } else {
                assert(b@.skip(i as int).len() == 0);
                assert(!seq_lt(a@.skip(i as int), b@.skip(i as int)));
            }
        }
        a.len() < b.len()
    }
}

/// Strict numeric order on normalized duration values: a longer integer part
/// is larger; equal-length integer parts compare digit by digit; equal integer
/// parts fall back to the fractional digits.
pub open spec fn dur_lt(a: DurationV, b: DurationV) -> bool {
    if a.int_digits.len() != b.int_digits.len() {
        a.int_digits.len() < b.int_digits.len()
    } else if a.int_digits != b.int_digits {
        seq_lt(a.int_digits, b.int_digits)
    } else {
        seq_lt(a.frac_digits, b.frac_digits)
    }
}

/// Two durations are either ordered one way or equal.
pub proof fn lemma_dur_lt_trichotomy(a: DurationV, b: DurationV)
    ensures
        dur_lt(a, b) || dur_lt(b, a) || a == b,
{
    if a.int_digits.len() == b.int_digits.len() {
        lemma_seq_lt_trichotomy(a.int_digits, b.int_digits);
        if a.int_digits == b.int_digits {
            lemma_seq_lt_trichotomy(a.frac_digits, b.frac_digits);
        }
    }
}

/// Duration order is asymmetric.
pub proof fn lemma_dur_lt_asymmetric(a: DurationV, b: DurationV)
    ensures
        !(dur_lt(a, b) && dur_lt(b, a)),
{
    lemma_seq_lt_asymmetric(a.int_digits, b.int_digits);
    lemma_seq_lt_asymmetric(a.frac_digits, b.frac_digits);
}

/// Duration order is transitive.
pub proof fn lemma_dur_lt_transitive(a: DurationV, b: DurationV, c: DurationV)
    requires
        dur_lt(a, b),
        dur_lt(b, c),
    ensures
        dur_lt(a, c),
{
    if a.int_digits.len() == b.int_digits.len() && b.int_digits.len() == c.int_digits.len() {
        if a.int_digits == b.int_digits && b.int_digits == c.int_digits {
            lemma_seq_lt_transitive(a.frac_digits, b.frac_digits, c.frac_digits);
        } else if a.int_digits == b.int_digits {
            lemma_seq_lt_trichotomy(a.int_digits, c.int_digits);
            if a.int_digits != c.int_digits {
                if seq_lt(c.int_digits, a.int_digits) {
                    lemma_seq_lt_transitive(c.int_digits, b.int_digits, c.int_digits);
                    lemma_seq_lt_asymmetric(b.int_digits, c.int_digits);
                }
            }
        } else if b.int_digits == c.int_digits {
            lemma_seq_lt_trichotomy(a.int_digits, c.int_digits);
            if a.int_digits != c.int_digits {
                if seq_lt(c.int_digits, a.int_digits) {
                    lemma_seq_lt_transitive(a.int_digits, c.int_digits, a.int_digits);
                    lemma_seq_lt_asymmetric(a.int_digits, b.int_digits);
                }
            }
        } else {
            lemma_seq_lt_transitive(a.int_digits, b.int_digits, c.int_digits);
            lemma_seq_lt_asymmetric(a.int_digits, c.int_digits);
        }
    }
}

/// Decide `dur_lt` on two duration values.
pub fn dur_lt_exec(a: &Duration, b: &Duration) -> (r: bool)
    ensures
        r == dur_lt(a@, b@),
{
    if a.int_digits.len() != b.int_digits.len() {
        return a.int_digits.len() < b.int_digits.len();
    }
    if bytes_lt(&a.int_digits, &b.int_digits) {
        proof {
            lemma_seq_lt_asymmetric(a.int_digits@, b.int_digits@);
        }
        return true;
    }
    if bytes_lt(&b.int_digits, &a.int_digits) {
        proof {
            lemma_seq_lt_asymmetric(a.int_digits@, b.int_digits@);
        }
        return false;
    }
    proof {
        lemma_seq_lt_trichotomy(a.int_digits@, b.int_digits@);
    }
    bytes_lt(&a.frac_digits, &b.frac_digits)
}

/// Index of the first dot of `t`, or its length if it has none.
pub open spec fn first_dot(t: Seq<u8>) -> int {
    scan_while(t, 0, |b: u8| b != 46)
}

/// The token parses as a number: at most one dot, and at least one digit.
/// Tokens are drawn from the alphabet of digits and dots.
pub open spec fn token_valid(t: Seq<u8>) -> bool {
    let d = first_dot(t);
    &&& (d == t.len() || scan_while(t, d + 1, |b: u8| b != 46) == t.len())
    &&& (if d < t.len() {
        t.len() >= 2
    } else {
        t.len() >= 1
    })
}

/// Integer digits with leading zeros removed; an all-zero or empty part
/// becomes the single digit `0`.
pub open spec fn norm_int(s: Seq<u8>) -> Seq<u8> {
    let j = scan_while(s, 0, |b: u8| b == 48);
    if j == s.len() {
        seq![48u8]
    } else {
        s.subrange(j, s.len() as int)
    }
}

/// Fractional digits with trailing zeros removed.
pub open spec fn strip_trailing_zeros(s: Seq<u8>) -> Seq<u8>
    decreases s.len(),
{
    if s.len() > 0 && s.last() == 48 {
        strip_trailing_zeros(s.drop_last())
    } else {
        s
    }
}

/// `strip_trailing_zeros` keeps exactly the prefix before the trailing zeros.
pub proof fn lemma_strip_trailing(s: Seq<u8>, j: int)
    requires
        0 <= j <= s.len(),
        forall|k: int| j <= k < s.len() ==> s[k] == 48,
        j > 0 ==> s[j - 1] != 48,
    ensures
        strip_trailing_zeros(s) == s.subrange(0, j),
    decreases s.len(),
{
    if j == s.len() {
        assert(s.subrange(0, j) =~= s);
    } else {
        assert(s.last() == 48);
        lemma_strip_trailing(s.drop_last(), j);
        assert(s.drop_last().subrange(0, j) =~= s.subrange(0, j));
    }
}

/// The normalized decimal value of a valid duration token.
pub open spec fn dur_of_token(t: Seq<u8>) -> DurationV {
    let d = first_dot(t);
    let int_raw = t.subrange(0, d);
    let frac_raw = if d == t.len() {
        Seq::<u8>::empty()
    } else {
        t.subrange(d + 1, t.len() as int)
    };
    DurationV { int_digits: norm_int(int_raw), frac_digits: strip_trailing_zeros(frac_raw) }
}

/// Decide validity of a digits-and-dots token and normalize it.
pub fn parse_duration_token(t: &Vec<u8>) -> (r: Option<Duration>)
    requires
        forall|i: int| 0 <= i < t@.len() ==> is_digit_or_dot(#[trigger] t@[i]),
    ensures
        match r {
            Some(d) => token_valid(t@) && d@ == dur_of_token(t@) && dur_wf(d@),
            None => !token_valid(t@),
        },
{
    // locate the first dot
    let mut d: usize = 0;
    while d < t.len() && t[d] != 46
        invariant
            0 <= d <= t@.len(),
            forall|k: int| 0 <= k < d ==> t@[k] != 46,
        decreases t@.len() - d,
    {
        d += 1;
    }
    proof {
        lemma_scan_while_unique(t@, 0, |b: u8| b != 46, d as int);
    }
    // reject a second dot
    if d < t.len() {
        let mut e: usize = d + 1;
        while e < t.len() && t[e] != 46
            invariant
                d + 1 <= e <= t@.len(),
                forall|k: int| d + 1 <= k < e ==> t@[k] != 46,
            decreases t@.len() - e,
        {
            e += 1;
        }
        proof {
            lemma_scan_while_unique(t@, d as int + 1, |b: u8| b != 46, e as int);
        }
        if e < t.len() {
            return None;
        }
        if t.len() < 2 {
            return None;
        }
    } else {
        if t.len() < 1 {
            return None;
        }
    }
    // normalize the integer part
    let int_raw = copy_range(t, 0, d);
    let mut j: usize = 0;
    while j < int_raw.len() && int_raw[j] == 48
        invariant
            0 <= j <= int_raw@.len(),
            forall|k: int| 0 <= k < j ==> int_raw@[k] == 48,
        decreases int_raw@.len() - j,
    {
        j += 1;
    }
    proof {
        lemma_scan_while_unique(int_raw@, 0, |b: u8| b == 48, j as int);
    }
    let int_digits: Vec<u8> = if j == int_raw.len() {
        vec![48u8]
    } else {
        copy_range(&int_raw, j, int_raw.len())
    };
    // normalize the fractional part
    let frac_raw: Vec<u8> = if d == t.len() {
        Vec::new()
    } else {
        copy_range(t, d + 1, t.len())
    };
    let mut m: usize = frac_raw.len();
    while m > 0 && frac_raw[m - 1] == 48
        invariant
            0 <= m <= frac_raw@.len(),
            forall|k: int| m <= k < frac_raw@.len() ==> frac_raw@[k] == 48,
        decreases m,
    {
        m -= 1;
    }
    proof {
        lemma_strip_trailing(frac_raw@, m as int);
    }
    let frac_digits = copy_range(&frac_raw, 0, m);
    let out = Duration { int_digits, frac_digits };
    proof {
        let dv = dur_of_token(t@);
        assert(int_raw@ == t@.subrange(0, d as int));
        if d < t.len() {
            assert(frac_raw@ == t@.subrange(d as int + 1, t@.len() as int));
        } else {
            assert(frac_raw@ =~= Seq::<u8>::empty());
        }
        if j == int_raw@.len() {
            assert(out@.int_digits =~= seq![48u8]);
        }
        assert(out@.int_digits == dv.int_digits);
        assert(out@.frac_digits == dv.frac_digits);
        assert(out@ == dv);
        lemma_dur_of_token_wf(t@);
    }
    Some(out)
}

/// The parsed duration of a valid token is well formed.
pub proof fn lemma_dur_of_token_wf(t: Seq<u8>)
    requires
        forall|i: int| 0 <= i < t.len() ==> is_digit_or_dot(#[trigger] t[i]),
        token_valid(t),
    ensures
        dur_wf(dur_of_token(t)),
{
    let d = first_dot(t);
    lemma_scan_while(t, 0, |b: u8| b != 46);
    let int_raw = t.subrange(0, d);
    let j = scan_while(int_raw, 0, |b: u8| b == 48);
    lemma_scan_while(int_raw, 0, |b: u8| b == 48);
    if d < t.len() {
        lemma_scan_while(t, d + 1, |b: u8| b != 46);
        let frac_raw = t.subrange(d + 1, t.len() as int);
        lemma_strip_frac_wf(frac_raw);
    } else {
        lemma_strip_frac_wf(Seq::<u8>::empty());
    }
}

/// Stripping trailing zeros keeps digits and leaves no trailing zero.
proof fn lemma_strip_frac_wf(s: Seq<u8>)
    requires
        forall|i: int| 0 <= i < s.len() ==> is_digit(#[trigger] s[i]),
    ensures
        forall|i: int|
            0 <= i < strip_trailing_zeros(s).len() ==> is_digit(
                #[trigger] strip_trailing_zeros(s)[i],
            ),
        strip_trailing_zeros(s).len() > 0 ==> strip_trailing_zeros(s).last() != 48,
        strip_trailing_zeros(s).len() <= s.len(),
    decreases s.len(),
{
    if s.len() > 0 && s.last() == 48 {
        lemma_strip_frac_wf(s.drop_last());
    }
}

/// The sort key of a unit record: its duration, a missing one counting as zero.
pub open spec fn unit_dur_or_zero(d: Option<DurationV>) -> DurationV {
    match d {
        Some(v) => v,
        None => dur_zero(),
    }
}

/// Decide `dur_lt` on the sort keys of two optional durations.
pub fn opt_dur_lt_exec(a: &Option<Duration>, b: &Option<Duration>) -> (r: bool)
    ensures
        r == dur_lt(
            unit_dur_or_zero(match a {
                Some(d) => Some(d@),
                None => None,
            }),
            unit_dur_or_zero(match b {
                Some(d) => Some(d@),
                None => None,
            }),
        ),
{
    let zero_a: Duration;
    let zero_b: Duration;
    let av: &Duration = match a {
        Some(d) => d,
        None => {
            zero_a = Duration { int_digits: vec![48u8], frac_digits: Vec::new() };
            proof {
                assert(zero_a@.int_digits =~= dur_zero().int_digits);
                assert(zero_a@.frac_digits =~= dur_zero().frac_digits);
            }
            &zero_a
        },
    };
    let bv: &Duration = match b {
        Some(d) => d,
        None => {
            zero_b = Duration { int_digits: vec![48u8], frac_digits: Vec::new() };
            proof {
                assert(zero_b@.int_digits =~= dur_zero().int_digits);
                assert(zero_b@.frac_digits =~= dur_zero().frac_digits);
            }
            &zero_b
        },
    };
    dur_lt_exec(av, bv)
}

} // verus!
