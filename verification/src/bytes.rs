//! Byte-level helpers shared by the parsers and the renderer: character
//! classes, maximal scans, substring search, and ASCII lowercasing.
use vstd::prelude::*;

verus! {

/// ASCII upper-case letter, `A` through `Z`.
pub open spec fn is_upper(b: u8) -> bool {
    65 <= b <= 90
}

/// ASCII decimal digit.
pub open spec fn is_digit(b: u8) -> bool {
    48 <= b <= 57
}

/// A character of a duration token: a digit or `.`.
pub open spec fn is_digit_or_dot(b: u8) -> bool {
    is_digit(b) || b == 46
}

/// Pattern whitespace inside a line: space, tab, CR, vertical tab, form feed.
pub open spec fn is_space(b: u8) -> bool {
    b == 32 || b == 9 || b == 13 || b == 11 || b == 12
}

/// First index at or after `i` where `p` stops holding (or the end of `s`).
pub open spec fn scan_while(s: Seq<u8>, i: int, p: spec_fn(u8) -> bool) -> int
    decreases s.len() - i,
{
    if i < 0 || i >= s.len() {
        i
    } else if p(s[i]) {
        scan_while(s, i + 1, p)
    } else {
        i
    }
}

/// `scan_while` yields the end of the maximal run of `p`-bytes starting at `i`.
pub proof fn lemma_scan_while(s: Seq<u8>, i: int, p: spec_fn(u8) -> bool)
    requires
        0 <= i <= s.len(),
    ensures
        i <= scan_while(s, i, p) <= s.len(),
        forall|k: int| i <= k < scan_while(s, i, p) ==> p(s[k]),
        scan_while(s, i, p) < s.len() ==> !p(s[scan_while(s, i, p)]),
    decreases s.len() - i,
{
    if i < s.len() && p(s[i]) {
        lemma_scan_while(s, i + 1, p);
    }
}

/// Any index with the maximal-run property is `scan_while`'s result.
pub proof fn lemma_scan_while_unique(s: Seq<u8>, i: int, p: spec_fn(u8) -> bool, j: int)
    requires
        0 <= i <= j <= s.len(),
        forall|k: int| i <= k < j ==> p(s[k]),
        j < s.len() ==> !p(s[j]),
    ensures
        scan_while(s, i, p) == j,
{
    lemma_scan_while(s, i, p);
    let r = scan_while(s, i, p);
    if r < j {
        assert(p(s[r]));
    } else if j < r {
        assert(p(s[j]));
    }
}

/// `pat` occurs as a contiguous subsequence of `s`.
pub open spec fn contains_sub(s: Seq<u8>, pat: Seq<u8>) -> bool {
    exists|i: int| 0 <= i <= s.len() - pat.len() && #[trigger] s.subrange(i, i + pat.len()) == pat
}

/// Substring search deciding `contains_sub`.
pub fn find_sub(s: &Vec<u8>, pat: &Vec<u8>) -> (r: bool)
    ensures
        r == contains_sub(s@, pat@),
{
    if pat.len() > s.len() {
        proof {
            assert(!contains_sub(s@, pat@));
        }
        return false;
    }
    let mut i: usize = 0;
    while i <= s.len() - pat.len()
        invariant
            pat@.len() <= s@.len(),
            0 <= i <= s@.len() - pat@.len() + 1,
            forall|ii: int| 0 <= ii < i ==> #[trigger] s@.subrange(ii, ii + pat@.len()) != pat@,
        decreases s@.len() - pat@.len() + 1 - i,
    {
        let mut j: usize = 0;
        let mut mismatch = false;
        while j < pat.len() && !mismatch
            invariant
                0 <= j <= pat@.len(),
                i + pat@.len() <= s@.len(),
                s@.len() <= usize::MAX,
                !mismatch ==> forall|k: int| 0 <= k < j ==> s@[i + k] == pat@[k],
                mismatch ==> j < pat@.len() && s@[i as int + j as int] != pat@[j as int],
            decreases pat@.len() - j, (if mismatch { 0int } else { 1int }),
        {
            if s[i + j] != pat[j] {
                mismatch = true;
            } else {
                j += 1;
            }
        }
        if !mismatch {
            proof {
                assert(s@.subrange(i as int, i + pat@.len()) =~= pat@);
            }
            return true;
        }
        proof {
            assert(s@.subrange(i as int, i as int + pat@.len())[j as int] != pat@[j as int]);
        }
        i += 1;
    }
    proof {
        assert forall|ii: int| 0 <= ii <= s@.len() - pat@.len() implies #[trigger] s@.subrange(ii, ii + pat@.len()) != pat@ by {
            assert(ii < i);
        }
    }
    false
}

/// Decide equality of two byte strings.
pub fn bytes_eq(a: &Vec<u8>, b: &Vec<u8>) -> (r: bool)
    ensures
        r == (a@ == b@),
{
    if a.len() != b.len() {
        return false;
    }
    let mut i: usize = 0;
    while i < a.len()
        invariant
            0 <= i <= a@.len(),
            a@.len() == b@.len(),
            forall|k: int| 0 <= k < i ==> a@[k] == b@[k],
        decreases a@.len() - i,
    {
        if a[i] != b[i] {
            return false;
        }
        i += 1;
    }
    proof {
        assert(a@ =~= b@);
    }
    true
}

/// Lowered form of one byte: upper-case ASCII letters move down by 32.
pub open spec fn lower_byte(b: u8) -> u8 {
    if is_upper(b) {
        (b + 32) as u8
    } else {
        b
    }
}

/// Bytewise ASCII lowercasing.
pub open spec fn lower_bytes(s: Seq<u8>) -> Seq<u8> {
    s.map_values(|b: u8| lower_byte(b))
}

/// Copy of `s` with every ASCII upper-case letter lowered.
pub fn to_lower(s: &Vec<u8>) -> (r: Vec<u8>)
    ensures
        r@ == lower_bytes(s@),
{
    let mut out: Vec<u8> = Vec::new();
    let mut i: usize = 0;
    while i < s.len()
        invariant
            0 <= i <= s@.len(),
            out@ == lower_bytes(s@.subrange(0, i as int)),
        decreases s@.len() - i,
    {
        let b = s[i];
        if 65 <= b && b <= 90 {
            out.push(b + 32);
        } else {
            out.push(b);
        }
        proof {
            assert(out@ =~= lower_bytes(s@.subrange(0, i + 1)));
        }
        i += 1;
    }
    proof {
        assert(s@.subrange(0, s@.len() as int) =~= s@);
    }
    out
}

/// Append every byte of `s` to `out`.
pub fn push_all(out: &mut Vec<u8>, s: &Vec<u8>)
    ensures
        final(out)@ == old(out)@ + s@,
{
    let mut i: usize = 0;
    while i < s.len()
        invariant
            0 <= i <= s@.len(),
            out@ == old(out)@ + s@.subrange(0, i as int),
        decreases s@.len() - i,
    {
        out.push(s[i]);
        proof {
            assert(out@ =~= old(out)@ + s@.subrange(0, i + 1));
        }
        i += 1;
    }
    proof {
        assert(old(out)@ + s@.subrange(0, s@.len() as int) =~= old(out)@ + s@);
    }
}

/// Bytes of `s` from `from` (inclusive) to `to` (exclusive), as a fresh vector.
pub fn copy_range(s: &Vec<u8>, from: usize, to: usize) -> (r: Vec<u8>)
    requires
        from <= to <= s@.len(),
    ensures
        r@ == s@.subrange(from as int, to as int),
{
    let mut out: Vec<u8> = Vec::new();
    let mut i: usize = from;
    while i < to
        invariant
            from <= i <= to <= s@.len(),
            out@ == s@.subrange(from as int, i as int),
        decreases to - i,
    {
        out.push(s[i]);
        proof {
            assert(out@ =~= s@.subrange(from as int, i + 1));
        }
        i += 1;
    }
    out
}

} // verus!
