//! The test-log extractor: turns a test runner's log text into one unit
//! record per (namespace, name) key, the last line for a key winning.
//!
//! A result line has the shape `STATUS [ <spaces><token>s] <namespace> <name>`:
//! an upper-case status word, one space, a bracketed elapsed time ending in
//! `s`, one space, then namespace and name, two non-whitespace tokens split by
//! a single space, reaching the end of the line. Anything else is log noise
//! and is skipped; a matching line whose time token is not a number fails the
//! whole extraction.
use vstd::prelude::*;

use crate::bytes::{is_digit_or_dot, is_space, is_upper, lemma_scan_while, lemma_scan_while_unique,
    lower_bytes, scan_while, copy_range, to_lower, bytes_eq};
use crate::duration::{dur_of_token, parse_duration_token, token_valid};
use crate::records::{unit_key, ParseFailure, UnitRecord, UnitV, units_view};

verus! {

/// The fixed engine identifier of this extractor's source format,
/// `cargo-nextest`.
pub open spec fn engine_name() -> Seq<u8> {
    seq![99u8, 97u8, 114u8, 103u8, 111u8, 45u8, 110u8, 101u8, 120u8, 116u8, 101u8, 115u8, 116u8]
}

/// Build the engine identifier.
fn engine_ident() -> (r: Vec<u8>)
    ensures
        r@ == engine_name(),
{
    let v: Vec<u8> = vec![
        99u8, 97u8, 114u8, 103u8, 111u8, 45u8, 110u8, 101u8, 120u8, 116u8, 101u8, 115u8, 116u8,
    ];
    proof {
        assert(v@ =~= engine_name());
    }
    v
}

/// What one log line contributes.
pub ghost enum LineParse {
    /// The line does not match the result pattern; it is noise.
    Skip,
    /// The line matches, but its time token is not a number.
    Bad,
    /// The line yields this record.
    Unit(UnitV),
}

/// Parse one log line against the result pattern.
pub open spec fn parse_line_spec(l: Seq<u8>) -> LineParse {
    let e1 = scan_while(l, 0, |b: u8| is_upper(b));
    if e1 == 0 || e1 + 1 >= l.len() || l[e1] != 32 || l[e1 + 1] != 91 {
        LineParse::Skip
    } else {
        let s2 = scan_while(l, e1 + 2, |b: u8| is_space(b));
        let e2 = scan_while(l, s2, |b: u8| is_digit_or_dot(b));
        if e2 == s2 || e2 + 2 >= l.len() || l[e2] != 115 || l[e2 + 1] != 93 || l[e2 + 2] != 32 {
            LineParse::Skip
        } else {
            let s3 = e2 + 3;
            let e3 = scan_while(l, s3, |b: u8| !is_space(b));
            if e3 == s3 || e3 >= l.len() || l[e3] != 32 {
                LineParse::Skip
            } else {
                let s4 = e3 + 1;
                let e4 = scan_while(l, s4, |b: u8| !is_space(b));
                if e4 == s4 || e4 != l.len() {
                    LineParse::Skip
                } else {
                    let tok = l.subrange(s2, e2);
                    if !token_valid(tok) {
                        LineParse::Bad
                    } else {
                        LineParse::Unit(
                            UnitV {
                                name: l.subrange(s4, e4),
                                result: lower_bytes(l.subrange(0, e1)),
                                namespace: Some(l.subrange(s3, e3)),
                                engine: Some(engine_name()),
                                duration: Some(dur_of_token(tok)),
                                path: None,
                                coverage: None,
                                details: None,
                                format: None,
                            },
                        )
                    }
                }
            }
        }
    }
}

/// Parse one log line; `Ok(None)` skips noise, an invalid time token is the
/// one failure.
pub fn parse_line(l: &Vec<u8>) -> (r: Result<Option<UnitRecord>, ParseFailure>)
    ensures
        match r {
            Ok(None) => parse_line_spec(l@) == LineParse::Skip,
            Ok(Some(u)) => parse_line_spec(l@) == LineParse::Unit(u@),
            Err(f) => parse_line_spec(l@) == LineParse::Bad && f
                == ParseFailure::MalformedDuration,
        },
{
    let n = l.len();
    let mut e1: usize = 0;
    while e1 < n && 65 <= l[e1] && l[e1] <= 90
        invariant
            0 <= e1 <= n,
            n == l@.len(),
            forall|k: int| 0 <= k < e1 ==> is_upper(#[trigger] l@[k]),
        decreases n - e1,
    {
        e1 += 1;
    }
    proof {
        lemma_scan_while_unique(l@, 0, |b: u8| is_upper(b), e1 as int);
    }
    if e1 == 0 || e1 >= n - 1 {
        return Ok(None);
    }
    if l[e1] != 32 || l[e1 + 1] != 91 {
        return Ok(None);
    }
    let mut s2: usize = e1 + 2;
    while s2 < n && (l[s2] == 32 || l[s2] == 9 || l[s2] == 13 || l[s2] == 11 || l[s2] == 12)
        invariant
            e1 + 2 <= s2 <= n,
            n == l@.len(),
            forall|k: int| e1 + 2 <= k < s2 ==> is_space(#[trigger] l@[k]),
        decreases n - s2,
    {
        s2 += 1;
    }
    proof {
        lemma_scan_while_unique(l@, e1 as int + 2, |b: u8| is_space(b), s2 as int);
    }
    let mut e2: usize = s2;
    while e2 < n && (48 <= l[e2] && l[e2] <= 57 || l[e2] == 46)
        invariant
            s2 <= e2 <= n,
            n == l@.len(),
            forall|k: int| s2 <= k < e2 ==> is_digit_or_dot(#[trigger] l@[k]),
        decreases n - e2,
    {
        e2 += 1;
    }
    proof {
        lemma_scan_while_unique(l@, s2 as int, |b: u8| is_digit_or_dot(b), e2 as int);
    }
    if e2 == s2 || n - e2 <= 2 {
        return Ok(None);
    }
    if l[e2] != 115 || l[e2 + 1] != 93 || l[e2 + 2] != 32 {
        return Ok(None);
    }
    let s3: usize = e2 + 3;
    let mut e3: usize = s3;
    while e3 < n && !(l[e3] == 32 || l[e3] == 9 || l[e3] == 13 || l[e3] == 11 || l[e3] == 12)
        invariant
            s3 <= e3 <= n,
            n == l@.len(),
            forall|k: int| s3 <= k < e3 ==> !is_space(#[trigger] l@[k]),
        decreases n - e3,
    {
        e3 += 1;
    }
    proof {
        lemma_scan_while_unique(l@, s3 as int, |b: u8| !is_space(b), e3 as int);
    }
    if e3 == s3 || e3 >= n {
        return Ok(None);
    }
    if l[e3] != 32 {
        return Ok(None);
    }
    let s4: usize = e3 + 1;
    let mut e4: usize = s4;
    while e4 < n && !(l[e4] == 32 || l[e4] == 9 || l[e4] == 13 || l[e4] == 11 || l[e4] == 12)
        invariant
            s4 <= e4 <= n,
            n == l@.len(),
            forall|k: int| s4 <= k < e4 ==> !is_space(#[trigger] l@[k]),
        decreases n - e4,
    {
        e4 += 1;
    }
    proof {
        lemma_scan_while_unique(l@, s4 as int, |b: u8| !is_space(b), e4 as int);
    }
    if e4 == s4 || e4 != n {
        return Ok(None);
    }
    let tok = copy_range(l, s2, e2);
    proof {
        lemma_scan_while(l@, s2 as int, |b: u8| is_digit_or_dot(b));
    }
    match parse_duration_token(&tok) {
        None => Err(ParseFailure::MalformedDuration),
        Some(dur) => {
            let status = copy_range(l, 0, e1);
            let result = to_lower(&status);
            let namespace = copy_range(l, s3, e3);
            let name = copy_range(l, s4, e4);
            let u = UnitRecord {
                name,
                result,
                namespace: Some(namespace),
                engine: Some(engine_ident()),
                duration: Some(dur),
                path: None,
                coverage: None,
                details: None,
                format: None,
            };
            Ok(Some(u))
        },
    }
}

/// A line with one trailing carriage return loses it.
pub open spec fn strip_cr(l: Seq<u8>) -> Seq<u8> {
    if l.len() > 0 && l.last() == 13 {
        l.drop_last()
    } else {
        l
    }
}

/// The lines of `c`: split at each newline, one trailing carriage return
/// removed per line, no final empty line after a trailing newline.
pub open spec fn split_lines(c: Seq<u8>) -> Seq<Seq<u8>>
    decreases c.len(),
    via split_lines_decreases
{
    if c.len() == 0 {
        Seq::empty()
    } else {
        let i = scan_while(c, 0, |b: u8| b != 10);
        let line = strip_cr(c.subrange(0, i));
        if i == c.len() {
            seq![line]
        } else {
            seq![line] + split_lines(c.subrange(i + 1, c.len() as int))
        }
    }
}

#[via_fn]
proof fn split_lines_decreases(c: Seq<u8>) {
    if c.len() > 0 {
        lemma_scan_while(c, 0, |b: u8| b != 10);
    }
}

/// View of a vector of lines.
pub open spec fn lines_view(s: Seq<Vec<u8>>) -> Seq<Seq<u8>> {
    s.map_values(|l: Vec<u8>| l@)
}

/// Split raw bytes into lines.
pub fn split_lines_exec(c: &Vec<u8>) -> (r: Vec<Vec<u8>>)
    ensures
        lines_view(r@) == split_lines(c@),
{
    let n = c.len();
    let mut out: Vec<Vec<u8>> = Vec::new();
    let mut pos: usize = 0;
    proof {
        assert(lines_view(out@) =~= Seq::<Seq<u8>>::empty());
        assert(c@.skip(0) =~= c@);
    }
    while pos < n
        invariant
            0 <= pos <= n,
            n == c@.len(),
            lines_view(out@) + split_lines(c@.skip(pos as int)) == split_lines(c@),
        decreases n - pos,
    {
        let ghost suffix = c@.skip(pos as int);
        let mut j: usize = pos;
        while j < n && c[j] != 10
            invariant
                pos <= j <= n,
                n == c@.len(),
                forall|k: int| pos <= k < j ==> c@[k] != 10,
            decreases n - j,
        {
            j += 1;
        }
        proof {
            assert forall|k: int| 0 <= k < j - pos implies suffix[k] != 10 by {
                assert(suffix[k] == c@[pos + k]);
            }
            if j < n {
                assert(suffix[j - pos] == c@[j as int]);
            }
            lemma_scan_while_unique(suffix, 0, |b: u8| b != 10, j as int - pos as int);
        }
        let line_end: usize = if j > pos && c[j - 1] == 13 {
            j - 1
        } else {
            j
        };
        let line = copy_range(c, pos, line_end);
        proof {
            let raw = suffix.subrange(0, j as int - pos as int);
            assert(raw =~= c@.subrange(pos as int, j as int));
            if j > pos && c@[j - 1] == 13 {
                assert(line@ =~= raw.drop_last());
            } else {
                assert(line@ =~= raw);
            }
            assert(line@ == strip_cr(raw));
        }
        out.push(line);
        proof {
            assert(out@.drop_last() =~= out@.subrange(0, out@.len() - 1));
            assert(lines_view(out@) =~= lines_view(out@.drop_last()).push(line@));
        }
        if j < n {
            proof {
                assert(suffix.subrange(j as int - pos as int + 1, suffix.len() as int) =~= c@.skip(
                    j as int + 1,
                ));
                assert(split_lines(suffix) == seq![strip_cr(
                    suffix.subrange(0, j as int - pos as int),
                )] + split_lines(c@.skip(j as int + 1)));
                assert(lines_view(out@) + split_lines(c@.skip(j as int + 1)) =~= split_lines(c@));
            }
            pos = j + 1;
        } else {
            proof {
                assert(split_lines(suffix) == seq![strip_cr(
                    suffix.subrange(0, j as int - pos as int),
                )]);
                assert(c@.skip(n as int).len() == 0);
                assert(split_lines(c@.skip(n as int)) =~= Seq::<Seq<u8>>::empty());
                assert(lines_view(out@) + split_lines(c@.skip(n as int)) =~= split_lines(c@));
            }
            pos = j;
            assert(pos == n);
        }
    }
    proof {
        assert(c@.skip(n as int).len() == 0);
        assert(lines_view(out@) =~= lines_view(out@) + split_lines(c@.skip(pos as int)));
    }
    out
}

/// First index in `s` holding the key `k`, or -1.
pub open spec fn find_key(s: Seq<UnitV>, k: (Option<Seq<u8>>, Seq<u8>)) -> int
    decreases s.len(),
{
    if s.len() == 0 {
        -1
    } else if unit_key(s[0]) == k {
        0
    } else {
        let r = find_key(s.subrange(1, s.len() as int), k);
        if r < 0 {
            -1
        } else {
            r + 1
        }
    }
}

/// `find_key` finds the first occurrence of `k`, and -1 only when absent.
pub proof fn lemma_find_key(s: Seq<UnitV>, k: (Option<Seq<u8>>, Seq<u8>))
    ensures
        find_key(s, k) == -1 ==> forall|i: int| 0 <= i < s.len() ==> unit_key(#[trigger] s[i]) != k,
        find_key(s, k) != -1 ==> 0 <= find_key(s, k) < s.len() && unit_key(s[find_key(s, k)]) == k
            && forall|i: int| 0 <= i < find_key(s, k) ==> unit_key(#[trigger] s[i]) != k,
    decreases s.len(),
{
    if s.len() > 0 && unit_key(s[0]) != k {
        let t = s.subrange(1, s.len() as int);
        lemma_find_key(t, k);
        assert forall|i: int| 1 <= i < s.len() implies s[i] == t[i - 1] by {}
    }
}

/// A first occurrence pins `find_key`'s result.
pub proof fn lemma_find_key_at(s: Seq<UnitV>, k: (Option<Seq<u8>>, Seq<u8>), j: int)
    requires
        0 <= j < s.len(),
        unit_key(s[j]) == k,
        forall|i: int| 0 <= i < j ==> unit_key(#[trigger] s[i]) != k,
    ensures
        find_key(s, k) == j,
{
    lemma_find_key(s, k);
    let r = find_key(s, k);
    if r == -1 {
        assert(unit_key(s[j]) != k);
    } else if r < j {
        assert(unit_key(s[r]) != k);
    } else if j < r {
        assert(unit_key(s[j]) != k);
    }
}

/// Record `r` replaces the record holding its key, or is appended.
pub open spec fn upsert(s: Seq<UnitV>, r: UnitV) -> Seq<UnitV> {
    let i = find_key(s, unit_key(r));
    if i >= 0 {
        s.update(i, r)
    } else {
        s.push(r)
    }
}

/// No two records share a key.
pub open spec fn keys_unique(s: Seq<UnitV>) -> bool {
    forall|i: int, j: int|
        0 <= i < j < s.len() ==> unit_key(#[trigger] s[i]) != unit_key(#[trigger] s[j])
}

/// What an upsert does: the new record is present, keys stay unique, and every
/// other record survives exactly when its key differs.
pub proof fn lemma_upsert_props(s: Seq<UnitV>, r: UnitV)
    requires
        keys_unique(s),
    ensures
        keys_unique(upsert(s, r)),
        upsert(s, r).contains(r),
        forall|x: UnitV|
            #[trigger] upsert(s, r).contains(x) ==> x == r || (s.contains(x) && unit_key(x)
                != unit_key(r)),
        forall|x: UnitV|
            s.contains(x) && unit_key(x) != unit_key(r) ==> #[trigger] upsert(s, r).contains(x),
        upsert(s, r).len() == if find_key(s, unit_key(r)) >= 0 {
            s.len()
        } else {
            s.len() + 1
        },
{
    lemma_find_key(s, unit_key(r));
    let i = find_key(s, unit_key(r));
    let t = upsert(s, r);
    if i >= 0 {
        assert(t[i] == r);
        assert(t.contains(r));
        assert forall|x: UnitV| #[trigger] t.contains(x) implies x == r || (s.contains(x)
            && unit_key(x) != unit_key(r)) by {
            let j = choose|j: int| 0 <= j < t.len() && t[j] == x;
            if j != i {
                assert(s[j] == x);
                assert(unit_key(s[j]) != unit_key(s[i]));
            }
        }
        assert forall|x: UnitV| s.contains(x) && unit_key(x) != unit_key(r) implies #[trigger] t
            .contains(x) by {
            let j = choose|j: int| 0 <= j < s.len() && s[j] == x;
            assert(t[j] == x);
        }
    } else {
        assert(t[s.len() as int] == r);
        assert(t.contains(r));
        assert forall|x: UnitV| #[trigger] t.contains(x) implies x == r || (s.contains(x)
            && unit_key(x) != unit_key(r)) by {
            let j = choose|j: int| 0 <= j < t.len() && t[j] == x;
            if j < s.len() {
                assert(s[j] == x);
                assert(unit_key(s[j]) != unit_key(r));
            }
        }
        assert forall|x: UnitV| s.contains(x) && unit_key(x) != unit_key(r) implies #[trigger] t
            .contains(x) by {
            let j = choose|j: int| 0 <= j < s.len() && s[j] == x;
            assert(t[j] == x);
        }
        assert forall|a: int, b: int| 0 <= a < b < t.len() implies unit_key(#[trigger] t[a])
            != unit_key(#[trigger] t[b]) by {
            if b == s.len() {
                assert(unit_key(s[a]) != unit_key(r));
            }
        }
    }
}

/// Of two records with one key arriving in order, only the later one is in
/// the collection afterwards.
pub proof fn lemma_last_record_wins(m: Seq<UnitV>, r1: UnitV, r2: UnitV)
    requires
        keys_unique(m),
        unit_key(r1) == unit_key(r2),
    ensures
        upsert(upsert(m, r1), r2).contains(r2),
        r1 != r2 ==> !upsert(upsert(m, r1), r2).contains(r1),
{
    lemma_upsert_props(m, r1);
    lemma_upsert_props(upsert(m, r1), r2);
}

/// The records of a whole log: parse every line in order, later lines
/// overwriting earlier ones with the same key; any bad time token fails all.
pub open spec fn units_of_lines(lines: Seq<Seq<u8>>) -> Option<Seq<UnitV>>
    decreases lines.len(),
{
    if lines.len() == 0 {
        Some(Seq::empty())
    } else {
        match units_of_lines(lines.drop_last()) {
            None => None,
            Some(m) => match parse_line_spec(lines.last()) {
                LineParse::Bad => None,
                LineParse::Skip => Some(m),
                LineParse::Unit(u) => Some(upsert(m, u)),
            },
        }
    }
}

/// A failed prefix fails the whole log.
proof fn lemma_units_none_extends(lines: Seq<Seq<u8>>, i: int)
    requires
        0 <= i <= lines.len(),
        units_of_lines(lines.subrange(0, i)) is None,
    ensures
        units_of_lines(lines) is None,
    decreases lines.len() - i,
{
    if i < lines.len() {
        assert(lines.subrange(0, i + 1).drop_last() =~= lines.subrange(0, i));
        lemma_units_none_extends(lines, i + 1);
    } else {
        assert(lines.subrange(0, i) =~= lines);
    }
}

/// The keys of a successfully extracted log are unique.
pub proof fn lemma_units_of_lines_unique(lines: Seq<Seq<u8>>)
    ensures
        units_of_lines(lines) matches Some(m) ==> keys_unique(m),
    decreases lines.len(),
{
    if lines.len() > 0 {
        lemma_units_of_lines_unique(lines.drop_last());
        match units_of_lines(lines.drop_last()) {
            Some(m) => match parse_line_spec(lines.last()) {
                LineParse::Unit(u) => lemma_upsert_props(m, u),
                _ => (),
            },
            None => (),
        }
    }
}

/// Do two unit records carry the same (namespace, name) key?
fn unit_key_matches(a: &UnitRecord, b: &UnitRecord) -> (r: bool)
    ensures
        r == (unit_key(a@) == unit_key(b@)),
{
    let ns_eq: bool = match (&a.namespace, &b.namespace) {
        (Some(x), Some(y)) => bytes_eq(x, y),
        (None, None) => true,
        _ => false,
    };
    let nm_eq = bytes_eq(&a.name, &b.name);
    ns_eq && nm_eq
}

/// Insert `rec` into `out` under its key, overwriting an earlier record.
fn upsert_exec(out: &mut Vec<UnitRecord>, rec: UnitRecord)
    ensures
        units_view(final(out)@) == upsert(units_view(old(out)@), rec@),
{
    let ghost m = units_view(out@);
    let mut j: usize = 0;
    let mut found = false;
    while j < out.len() && !found
        invariant
            0 <= j <= out@.len(),
            m == units_view(out@),
            !found ==> forall|k: int| 0 <= k < j ==> unit_key(#[trigger] m[k]) != unit_key(rec@),
            found ==> j < out@.len() && unit_key(m[j as int]) == unit_key(rec@) && forall|k: int|
                0 <= k < j ==> unit_key(#[trigger] m[k]) != unit_key(rec@),
        decreases out@.len() - j, (if found { 0int } else { 1int }),
    {
        if unit_key_matches(&out[j], &rec) {
            found = true;
        } else {
            j += 1;
        }
    }
    if found {
        proof {
            lemma_find_key_at(m, unit_key(rec@), j as int);
        }
        let ghost rv = rec@;
        out[j] = rec;
        proof {
            assert(units_view(out@) =~= m.update(j as int, rv));
        }
    } else {
        proof {
            lemma_find_key(m, unit_key(rec@));
            if find_key(m, unit_key(rec@)) != -1 {
                assert(unit_key(m[find_key(m, unit_key(rec@))]) != unit_key(rec@));
            }
        }
        let ghost rv = rec@;
        out.push(rec);
        proof {
            assert(units_view(out@) =~= m.push(rv));
        }
    }
}

/// Extract the unit records of a raw test log.
///
/// Every line matching the result pattern contributes a record under its
/// (namespace, name) key, a later line overwriting an earlier one; lines not
/// matching are skipped; a matching line whose elapsed-time token is not a
/// number fails the extraction, and only then.
pub fn unit_records_from_bytes(content: &Vec<u8>) -> (r: Result<Vec<UnitRecord>, ParseFailure>)
    ensures
        match r {
            Ok(v) => units_of_lines(split_lines(content@)) == Some(units_view(v@)),
            Err(f) => units_of_lines(split_lines(content@)) is None && f
                == ParseFailure::MalformedDuration,
        },
{
    let lines = split_lines_exec(content);
    let ghost lv = split_lines(content@);
    let mut out: Vec<UnitRecord> = Vec::new();
    let mut i: usize = 0;
    proof {
        assert(lv.subrange(0, 0) =~= Seq::<Seq<u8>>::empty());
        assert(units_view(out@) =~= Seq::<UnitV>::empty());
    }
    while i < lines.len()
        invariant
            0 <= i <= lines@.len(),
            lv == split_lines(content@),
            lines_view(lines@) == lv,
            units_of_lines(lv.subrange(0, i as int)) == Some(units_view(out@)),
        decreases lines@.len() - i,
    {
        let ghost pref = lv.subrange(0, i as int);
        proof {
            assert(lines@[i as int]@ == lv[i as int]);
            assert(lv.subrange(0, i + 1).drop_last() =~= pref);
            assert(lv.subrange(0, i + 1).last() == lines@[i as int]@);
        }
        match parse_line(&lines[i]) {
            Err(f) => {
                proof {
                    assert(parse_line_spec(lv[i as int]) == LineParse::Bad);
                    assert(units_of_lines(lv.subrange(0, i + 1)) is None);
                    lemma_units_none_extends(lv, i + 1);
                }
                return Err(f);
            },
            Ok(None) => {
                proof {
                    assert(units_of_lines(lv.subrange(0, i + 1)) == Some(units_view(out@)));
                }
            },
            Ok(Some(rec)) => {
                let ghost m = units_view(out@);
                let ghost rv = rec@;
                upsert_exec(&mut out, rec);
                proof {
                    assert(units_view(out@) == upsert(m, rv));
                    assert(units_of_lines(lv.subrange(0, i + 1)) == Some(units_view(out@)));
                }
            },
        }
        i += 1;
    }
    proof {
        assert(lv.subrange(0, lines@.len() as int) =~= lv);
    }
    Ok(out)
}

} // verus!
