//! The serializer: renders a report payload as one JSON document.
//!
//! Field names are fixed, absent optional fields are omitted entirely, and
//! the nested auth object always renders. String values are escaped with the
//! usual JSON escapes; durations and line numbers render as JSON numbers.
use vstd::prelude::*;

use crate::bytes::{is_digit, push_all};
use crate::records::{cov_view, opt_bytes_view, CoverageEntry, Duration, DurationV, LintRecord, LintV,
    PayloadV, ReportPayload, Status, UnitRecord, UnitV, lints_view, units_view};

verus! {

/// Hexadecimal digit of a value below 16, lower case.
pub open spec fn hex_digit(n: u8) -> u8 {
    if n < 10 {
        (48 + n) as u8
    } else {
        (87 + n) as u8
    }
}

/// The JSON escape of one byte: the two-character escapes for quote,
/// backslash and the common control characters, `\u00XX` for the other
/// control characters, and the byte itself otherwise.
pub open spec fn esc_byte(b: u8) -> Seq<u8> {
    if b == 34 {
        seq![92u8, 34u8]
    } else if b == 92 {
        seq![92u8, 92u8]
    } else if b == 10 {
        seq![92u8, 110u8]
    } else if b == 13 {
        seq![92u8, 114u8]
    } else if b == 9 {
        seq![92u8, 116u8]
    } else if b < 32 {
        seq![92u8, 117u8, 48u8, 48u8, hex_digit(b / 16), hex_digit(b % 16)]
    } else {
        seq![b]
    }
}

/// The escaped form of a whole string.
pub open spec fn esc(s: Seq<u8>) -> Seq<u8>
    decreases s.len(),
{
    if s.len() == 0 {
        Seq::empty()
    } else {
        esc(s.drop_last()) + esc_byte(s.last())
    }
}

/// A quoted, escaped JSON string.
pub open spec fn json_str(s: Seq<u8>) -> Seq<u8> {
    seq![34u8] + esc(s) + seq![34u8]
}


/// Hexadecimal digit character, as the escaper writes them: `0`-`9`, `a`-`f`.
pub open spec fn is_hex(b: u8) -> bool {
    is_digit(b) || (97 <= b <= 102)
}

/// Value of a hexadecimal digit character.
pub open spec fn hex_val(b: u8) -> int {
    if is_digit(b) {
        b - 48
    } else {
        b - 87
    }
}

/// A decoded head byte in front of a decoded tail, when the tail decodes.
pub open spec fn prepend(b: u8, r: Option<Seq<u8>>) -> Option<Seq<u8>> {
    match r {
        None => None,
        Some(t) => Some(seq![b] + t),
    }
}

/// Decode the escapes the serializer produces, or nothing when the bytes are
/// not such an escape.
pub open spec fn unesc(s: Seq<u8>) -> Option<Seq<u8>>
    decreases s.len(),
{
    if s.len() == 0 {
        Some(Seq::empty())
    } else if s[0] == 92 {
        if s.len() < 2 {
            None
        } else if s[1] == 34 || s[1] == 92 {
            prepend(s[1], unesc(s.skip(2)))
        } else if s[1] == 110 {
            prepend(10, unesc(s.skip(2)))
        } else if s[1] == 114 {
            prepend(13, unesc(s.skip(2)))
        } else if s[1] == 116 {
            prepend(9, unesc(s.skip(2)))
        } else if s[1] == 117 {
            if s.len() >= 6 && s[2] == 48 && s[3] == 48 && is_hex(s[4]) && is_hex(s[5]) {
                prepend((hex_val(s[4]) * 16 + hex_val(s[5])) as u8, unesc(s.skip(6)))
            } else {
                None
            }
        } else {
            None
        }
    } else {
        prepend(s[0], unesc(s.skip(1)))
    }
}

/// Escaping distributes over concatenation.
proof fn lemma_esc_add(a: Seq<u8>, b: Seq<u8>)
    ensures
        esc(a + b) == esc(a) + esc(b),
    decreases b.len(),
{
    if b.len() == 0 {
        assert(a + b =~= a);
        assert(esc(a) + esc(b) =~= esc(a));
    } else {
        lemma_esc_add(a, b.drop_last());
        assert((a + b).drop_last() =~= a + b.drop_last());
        assert((a + b).last() == b.last());
        assert(esc(a) + esc(b.drop_last()) + esc_byte(b.last()) =~= esc(a) + esc(b));
    }
}

/// Escaping a string and decoding the result returns the string: the string
/// part of the serializer's round trip.
pub proof fn lemma_esc_round_trip(s: Seq<u8>)
    ensures
        unesc(esc(s)) == Some(s),
    decreases s.len(),
{
    if s.len() > 0 {
        let h = s[0];
        let t = s.skip(1);
        lemma_esc_round_trip(t);
        assert(seq![h] + t =~= s);
        lemma_esc_add(seq![h], t);
        assert(seq![h].drop_last() =~= Seq::<u8>::empty());
        assert(seq![h].last() == h);
        assert(esc(Seq::<u8>::empty()) == Seq::<u8>::empty());
        assert(esc(seq![h]) == esc(seq![h].drop_last()) + esc_byte(h));
        assert(esc(seq![h]) =~= esc_byte(h));
        let e = esc_byte(h) + esc(t);
        assert(esc(s) == e);
        if h == 34 || h == 92 {
            assert(e[0] == 92 && e[1] == h);
            assert(e.skip(2) =~= esc(t));
            assert(unesc(e) == Some(seq![h] + t));
        } else if h == 10 {
            assert(e[0] == 92 && e[1] == 110);
            assert(e.skip(2) =~= esc(t));
            assert(unesc(e) == Some(seq![h] + t));
        } else if h == 13 {
            assert(e[0] == 92 && e[1] == 114);
            assert(e.skip(2) =~= esc(t));
            assert(unesc(e) == Some(seq![h] + t));
        } else if h == 9 {
            assert(e[0] == 92 && e[1] == 116);
            assert(e.skip(2) =~= esc(t));
            assert(unesc(e) == Some(seq![h] + t));
        } else if h < 32 {
            assert(e[0] == 92 && e[1] == 117 && e[2] == 48 && e[3] == 48);
            assert(e[4] == hex_digit(h / 16) && e[5] == hex_digit(h % 16));
            assert(is_hex(e[4]) && is_hex(e[5]));
            assert(hex_val(e[4]) == h / 16 && hex_val(e[5]) == h % 16);
            assert(hex_val(e[4]) * 16 + hex_val(e[5]) == h);
            assert(e.skip(6) =~= esc(t));
            assert(unesc(e) == Some(seq![h] + t));
        } else {
            assert(e[0] == h && h != 92);
            assert(e.skip(1) =~= esc(t));
            assert(unesc(e) == Some(seq![h] + t));
        }
    }
}

/// The decimal digits of a number.
pub open spec fn dec_digits(n: nat) -> Seq<u8>
    decreases n,
{
    if n < 10 {
        seq![(48 + n) as u8]
    } else {
        dec_digits(n / 10) + seq![(48 + (n % 10)) as u8]
    }
}

/// The JSON number form of a duration.
pub open spec fn dur_json(d: DurationV) -> Seq<u8> {
    if d.frac_digits.len() == 0 {
        d.int_digits
    } else {
        d.int_digits + seq![46u8] + d.frac_digits
    }
}

/// `"key":"value"`.
pub open spec fn str_field(key: Seq<u8>, val: Seq<u8>) -> Seq<u8> {
    json_str(key) + seq![58u8] + json_str(val)
}

/// `,"key":"value"` for a present value, nothing for an absent one.
pub open spec fn opt_str_field(key: Seq<u8>, val: Option<Seq<u8>>) -> Seq<u8> {
    match val {
        None => Seq::empty(),
        Some(v) => seq![44u8] + str_field(key, v),
    }
}

/// The field name `name`.
pub open spec fn k_name() -> Seq<u8> {
    seq![110u8, 97u8, 109u8, 101u8]
}

/// The field name `result`.
pub open spec fn k_result() -> Seq<u8> {
    seq![114u8, 101u8, 115u8, 117u8, 108u8, 116u8]
}

/// The field name `namespace`.
pub open spec fn k_namespace() -> Seq<u8> {
    seq![110u8, 97u8, 109u8, 101u8, 115u8, 112u8, 97u8, 99u8, 101u8]
}

/// The field name `engine`.
pub open spec fn k_engine() -> Seq<u8> {
    seq![101u8, 110u8, 103u8, 105u8, 110u8, 101u8]
}

/// The field name `duration`.
pub open spec fn k_duration() -> Seq<u8> {
    seq![100u8, 117u8, 114u8, 97u8, 116u8, 105u8, 111u8, 110u8]
}

/// The field name `path`.
pub open spec fn k_path() -> Seq<u8> {
    seq![112u8, 97u8, 116u8, 104u8]
}

/// The field name `coverage`.
pub open spec fn k_coverage() -> Seq<u8> {
    seq![99u8, 111u8, 118u8, 101u8, 114u8, 97u8, 103u8, 101u8]
}

/// The field name `details`.
pub open spec fn k_details() -> Seq<u8> {
    seq![100u8, 101u8, 116u8, 97u8, 105u8, 108u8, 115u8]
}

/// The field name `format`.
pub open spec fn k_format() -> Seq<u8> {
    seq![102u8, 111u8, 114u8, 109u8, 97u8, 116u8]
}

/// The field name `code`.
pub open spec fn k_code() -> Seq<u8> {
    seq![99u8, 111u8, 100u8, 101u8]
}

/// The field name `severity`.
pub open spec fn k_severity() -> Seq<u8> {
    seq![115u8, 101u8, 118u8, 101u8, 114u8, 105u8, 116u8, 121u8]
}

/// The field name `line`.
pub open spec fn k_line() -> Seq<u8> {
    seq![108u8, 105u8, 110u8, 101u8]
}

/// The field name `char`.
pub open spec fn k_char() -> Seq<u8> {
    seq![99u8, 104u8, 97u8, 114u8]
}

/// The field name `description`.
pub open spec fn k_description() -> Seq<u8> {
    seq![100u8, 101u8, 115u8, 99u8, 114u8, 105u8, 112u8, 116u8, 105u8, 111u8, 110u8]
}

/// The field name `buildTargetPHID`.
pub open spec fn k_build() -> Seq<u8> {
    seq![98u8, 117u8, 105u8, 108u8, 100u8, 84u8, 97u8, 114u8, 103u8, 101u8, 116u8, 80u8, 72u8, 73u8, 68u8]
}

/// The field name `type`.
pub open spec fn k_type() -> Seq<u8> {
    seq![116u8, 121u8, 112u8, 101u8]
}

/// The field name `unit`.
pub open spec fn k_unit() -> Seq<u8> {
    seq![117u8, 110u8, 105u8, 116u8]
}

/// The field name `lint`.
pub open spec fn k_lint() -> Seq<u8> {
    seq![108u8, 105u8, 110u8, 116u8]
}

/// The field name `__conduit__`.
pub open spec fn k_conduit() -> Seq<u8> {
    seq![95u8, 95u8, 99u8, 111u8, 110u8, 100u8, 117u8, 105u8, 116u8, 95u8, 95u8]
}

/// The field name `token`.
pub open spec fn k_token() -> Seq<u8> {
    seq![116u8, 111u8, 107u8, 101u8, 110u8]
}

/// The textual name of a status value.
pub open spec fn status_name(s: Status) -> Seq<u8> {
    match s {
        Status::Abort => seq![97u8, 98u8, 111u8, 114u8, 116u8],
        Status::Fail => seq![102u8, 97u8, 105u8, 108u8],
        Status::Pass => seq![112u8, 97u8, 115u8, 115u8],
        Status::Pause => seq![112u8, 97u8, 117u8, 115u8, 101u8],
        Status::Restart => seq![114u8, 101u8, 115u8, 116u8, 97u8, 114u8, 116u8],
        Status::Resume => seq![114u8, 101u8, 115u8, 117u8, 109u8, 101u8],
        Status::Work => seq![119u8, 111u8, 114u8, 107u8],
    }
}

/// The members of a coverage object, comma-separated.
pub open spec fn cov_inner(s: Seq<(Seq<u8>, Seq<u8>)>) -> Seq<u8>
    decreases s.len(),
{
    if s.len() == 0 {
        Seq::empty()
    } else if s.len() == 1 {
        str_field(s[0].0, s[0].1)
    } else {
        cov_inner(s.drop_last()) + seq![44u8] + str_field(s.last().0, s.last().1)
    }
}

/// A coverage mapping as a JSON object.
pub open spec fn cov_json(s: Seq<(Seq<u8>, Seq<u8>)>) -> Seq<u8> {
    seq![123u8] + cov_inner(s) + seq![125u8]
}

/// One unit record as a JSON object, absent fields omitted.
pub open spec fn unit_json(u: UnitV) -> Seq<u8> {
    seq![123u8] + str_field(k_name(), u.name) + seq![44u8] + str_field(k_result(), u.result)
        + opt_str_field(k_namespace(), u.namespace) + opt_str_field(k_engine(), u.engine) + (match u
        .duration {
        None => Seq::empty(),
        Some(d) => seq![44u8] + json_str(k_duration()) + seq![58u8] + dur_json(d),
    }) + opt_str_field(k_path(), u.path) + (match u.coverage {
        None => Seq::empty(),
        Some(c) => seq![44u8] + json_str(k_coverage()) + seq![58u8] + cov_json(c),
    }) + opt_str_field(k_details(), u.details) + opt_str_field(k_format(), u.format) + seq![125u8]
}

/// One lint record as a JSON object, absent fields omitted.
pub open spec fn lint_json(l: LintV) -> Seq<u8> {
    seq![123u8] + str_field(k_name(), l.name) + seq![44u8] + str_field(k_code(), l.code)
        + seq![44u8] + str_field(k_severity(), l.severity) + seq![44u8] + str_field(
        k_path(),
        l.path,
    ) + (match l.line {
        None => Seq::empty(),
        Some(n) => seq![44u8] + json_str(k_line()) + seq![58u8] + dec_digits(n as nat),
    }) + (match l.position {
        None => Seq::empty(),
        Some(n) => seq![44u8] + json_str(k_char()) + seq![58u8] + dec_digits(n as nat),
    }) + opt_str_field(k_description(), l.description) + seq![125u8]
}

/// The elements of the unit array, comma-separated.
pub open spec fn units_inner(s: Seq<UnitV>) -> Seq<u8>
    decreases s.len(),
{
    if s.len() == 0 {
        Seq::empty()
    } else if s.len() == 1 {
        unit_json(s[0])
    } else {
        units_inner(s.drop_last()) + seq![44u8] + unit_json(s.last())
    }
}

/// The unit array.
pub open spec fn units_json(s: Seq<UnitV>) -> Seq<u8> {
    seq![91u8] + units_inner(s) + seq![93u8]
}

/// The elements of the lint array, comma-separated.
pub open spec fn lints_inner(s: Seq<LintV>) -> Seq<u8>
    decreases s.len(),
{
    if s.len() == 0 {
        Seq::empty()
    } else if s.len() == 1 {
        lint_json(s[0])
    } else {
        lints_inner(s.drop_last()) + seq![44u8] + lint_json(s.last())
    }
}

/// The lint array.
pub open spec fn lints_json(s: Seq<LintV>) -> Seq<u8> {
    seq![91u8] + lints_inner(s) + seq![93u8]
}

/// The whole payload as one JSON document.
pub open spec fn payload_json(p: PayloadV) -> Seq<u8> {
    seq![123u8] + str_field(k_build(), p.build) + seq![44u8] + str_field(
        k_type(),
        status_name(p.status),
    ) + (match p.unit {
        None => Seq::empty(),
        Some(us) => seq![44u8] + json_str(k_unit()) + seq![58u8] + units_json(us),
    }) + (match p.lint {
        None => Seq::empty(),
        Some(ls) => seq![44u8] + json_str(k_lint()) + seq![58u8] + lints_json(ls),
    }) + seq![44u8] + json_str(k_conduit()) + seq![58u8] + seq![123u8] + str_field(
        k_token(),
        p.token,
    ) + seq![125u8] + seq![125u8]
}

/// Append the quoted, escaped form of `s`.
pub fn push_json_str(out: &mut Vec<u8>, s: &Vec<u8>)
    ensures
        final(out)@ == old(out)@ + json_str(s@),
{
    out.push(34);
    let mut i: usize = 0;
    while i < s.len()
        invariant
            0 <= i <= s@.len(),
            out@ == old(out)@ + seq![34u8] + esc(s@.subrange(0, i as int)),
        decreases s@.len() - i,
    {
        let b = s[i];
        if b == 34 {
            out.push(92);
            out.push(34);
        } else if b == 92 {
            out.push(92);
            out.push(92);
        } else if b == 10 {
            out.push(92);
            out.push(110);
        } else if b == 13 {
            out.push(92);
            out.push(114);
        } else if b == 9 {
            out.push(92);
            out.push(116);
        } else if b < 32 {
            out.push(92);
            out.push(117);
            out.push(48);
            out.push(48);
            let hi = b / 16;
            let lo = b % 16;
            out.push(if hi < 10 { 48 + hi } else { 87 + hi });
            out.push(if lo < 10 { 48 + lo } else { 87 + lo });
        } else {
            out.push(b);
        }
        proof {
            assert(s@.subrange(0, i + 1).drop_last() =~= s@.subrange(0, i as int));
            assert(s@.subrange(0, i + 1).last() == s@[i as int]);
            assert(out@ =~= old(out)@ + seq![34u8] + esc(s@.subrange(0, i + 1)));
        }
        i += 1;
    }
    out.push(34);
    proof {
        assert(s@.subrange(0, s@.len() as int) =~= s@);
        assert(out@ =~= old(out)@ + json_str(s@));
    }
}

/// Append the decimal digits of `n`.
pub fn push_dec(out: &mut Vec<u8>, n: usize)
    ensures
        final(out)@ == old(out)@ + dec_digits(n as nat),
    decreases n,
{
    if n < 10 {
        out.push(48 + (n as u8));
        proof {
            assert(out@ =~= old(out)@ + dec_digits(n as nat));
        }
    } else {
        push_dec(out, n / 10);
        out.push(48 + ((n % 10) as u8));
        proof {
            assert(out@ =~= old(out)@ + dec_digits(n as nat));
        }
    }
}

/// Append the JSON number form of a duration.
pub fn push_dur(out: &mut Vec<u8>, d: &Duration)
    ensures
        final(out)@ == old(out)@ + dur_json(d@),
{
    push_all(out, &d.int_digits);
    if d.frac_digits.len() > 0 {
        out.push(46);
        push_all(out, &d.frac_digits);
    }
    proof {
        assert(out@ =~= old(out)@ + dur_json(d@));
    }
}

/// Append `"key":"value"`, with a leading comma when asked.
fn push_str_field(out: &mut Vec<u8>, comma: bool, key: &Vec<u8>, val: &Vec<u8>)
    ensures
        final(out)@ == old(out)@ + (if comma {
            seq![44u8]
        } else {
            Seq::<u8>::empty()
        }) + str_field(key@, val@),
{
    if comma {
        out.push(44);
    }
    push_json_str(out, key);
    out.push(58);
    push_json_str(out, val);
    proof {
        if comma {
            assert(out@ =~= old(out)@ + seq![44u8] + str_field(key@, val@));
        } else {
            assert(out@ =~= old(out)@ + Seq::<u8>::empty() + str_field(key@, val@));
        }
    }
}

/// Append a coverage mapping as a JSON object.
fn push_cov(out: &mut Vec<u8>, c: &Vec<CoverageEntry>)
    ensures
        final(out)@ == old(out)@ + cov_json(cov_view(c@)),
{
    out.push(123);
    let mut i: usize = 0;
    while i < c.len()
        invariant
            0 <= i <= c@.len(),
            out@ == old(out)@ + seq![123u8] + cov_inner(cov_view(c@).subrange(0, i as int)),
        decreases c@.len() - i,
    {
        push_str_field(out, i > 0, &c[i].key, &c[i].value);
        proof {
            let cv = cov_view(c@);
            assert(cv.subrange(0, i + 1).drop_last() =~= cv.subrange(0, i as int));
            assert(cv.subrange(0, i + 1).last() == (c@[i as int].key@, c@[i as int].value@));
            assert(out@ =~= old(out)@ + seq![123u8] + cov_inner(cv.subrange(0, i + 1)));
        }
        i += 1;
    }
    out.push(125);
    proof {
        assert(cov_view(c@).subrange(0, c@.len() as int) =~= cov_view(c@));
        assert(out@ =~= old(out)@ + cov_json(cov_view(c@)));
    }
}


/// Append `,"key":"value"` for a present value, nothing for an absent one.
fn push_opt_str_field(out: &mut Vec<u8>, key: &Vec<u8>, val: &Option<Vec<u8>>)
    ensures
        final(out)@ == old(out)@ + opt_str_field(key@, opt_bytes_view(*val)),
{
    match val {
        None => {
            proof {
                assert(out@ =~= old(out)@ + opt_str_field(key@, opt_bytes_view(*val)));
            }
        },
        Some(v) => {
            push_str_field(out, true, key, v);
            proof {
                assert(out@ =~= old(out)@ + opt_str_field(key@, opt_bytes_view(*val)));
            }
        },
    }
}

/// Append `,"key":<number>` for a present duration, nothing otherwise.
fn push_opt_dur_field(out: &mut Vec<u8>, key: &Vec<u8>, d: &Option<Duration>)
    ensures
        final(out)@ == old(out)@ + (match *d {
            None => Seq::<u8>::empty(),
            Some(x) => seq![44u8] + json_str(key@) + seq![58u8] + dur_json(x@),
        }),
{
    match d {
        None => {
            proof {
                assert(out@ =~= old(out)@ + Seq::<u8>::empty());
            }
        },
        Some(x) => {
            out.push(44);
            push_json_str(out, key);
            out.push(58);
            push_dur(out, x);
            proof {
                assert(out@ =~= old(out)@ + (seq![44u8] + json_str(key@) + seq![58u8] + dur_json(
                    x@,
                )));
            }
        },
    }
}

/// Append `,"key":<number>` for a present count, nothing otherwise.
fn push_opt_num_field(out: &mut Vec<u8>, key: &Vec<u8>, n: &Option<usize>)
    ensures
        final(out)@ == old(out)@ + (match *n {
            None => Seq::<u8>::empty(),
            Some(v) => seq![44u8] + json_str(key@) + seq![58u8] + dec_digits(v as nat),
        }),
{
    match n {
        None => {
            proof {
                assert(out@ =~= old(out)@ + Seq::<u8>::empty());
            }
        },
        Some(v) => {
            out.push(44);
            push_json_str(out, key);
            out.push(58);
            push_dec(out, *v);
            proof {
                assert(out@ =~= old(out)@ + (seq![44u8] + json_str(key@) + seq![58u8] + dec_digits(
                    *v as nat,
                )));
            }
        },
    }
}

/// Append `,"key":{...}` for a present coverage mapping, nothing otherwise.
fn push_opt_cov_field(out: &mut Vec<u8>, key: &Vec<u8>, c: &Option<Vec<CoverageEntry>>)
    ensures
        final(out)@ == old(out)@ + (match *c {
            None => Seq::<u8>::empty(),
            Some(v) => seq![44u8] + json_str(key@) + seq![58u8] + cov_json(cov_view(v@)),
        }),
{
    match c {
        None => {
            proof {
                assert(out@ =~= old(out)@ + Seq::<u8>::empty());
            }
        },
        Some(v) => {
            out.push(44);
            push_json_str(out, key);
            out.push(58);
            push_cov(out, v);
            proof {
                assert(out@ =~= old(out)@ + (seq![44u8] + json_str(key@) + seq![58u8] + cov_json(
                    cov_view(v@),
                )));
            }
        },
    }
}

/// Append one unit record as a JSON object.
#[verifier::rlimit(100)]
fn push_unit(out: &mut Vec<u8>, u: &UnitRecord)
    ensures
        final(out)@ == old(out)@ + unit_json(u@),
{
    let ghost base = out@;
    out.push(123);
    let key_name: Vec<u8> = vec![110u8, 97u8, 109u8, 101u8];
    proof {
        assert(key_name@ =~= k_name());
    }
    push_str_field(out, false, &key_name, &u.name);
    let ghost a1 = seq![123u8] + str_field(k_name(), u@.name);
    proof {
        assert(out@ =~= base + a1);
    }
    let key_result: Vec<u8> = vec![114u8, 101u8, 115u8, 117u8, 108u8, 116u8];
    proof {
        assert(key_result@ =~= k_result());
    }
    push_str_field(out, true, &key_result, &u.result);
    let ghost a2 = a1 + seq![44u8] + str_field(k_result(), u@.result);
    proof {
        assert(out@ =~= base + a2);
    }
    let key_ns: Vec<u8> = vec![110u8, 97u8, 109u8, 101u8, 115u8, 112u8, 97u8, 99u8, 101u8];
    proof {
        assert(key_ns@ =~= k_namespace());
    }
    push_opt_str_field(out, &key_ns, &u.namespace);
    let ghost a3 = a2 + opt_str_field(k_namespace(), u@.namespace);
    proof {
        assert(out@ =~= base + a3);
    }
    let key_eng: Vec<u8> = vec![101u8, 110u8, 103u8, 105u8, 110u8, 101u8];
    proof {
        assert(key_eng@ =~= k_engine());
    }
    push_opt_str_field(out, &key_eng, &u.engine);
    let ghost a4 = a3 + opt_str_field(k_engine(), u@.engine);
    proof {
        assert(out@ =~= base + a4);
    }
    let key_dur: Vec<u8> = vec![100u8, 117u8, 114u8, 97u8, 116u8, 105u8, 111u8, 110u8];
    proof {
        assert(key_dur@ =~= k_duration());
    }
    push_opt_dur_field(out, &key_dur, &u.duration);
    let ghost a5 = a4 + (match u@.duration {
        None => Seq::<u8>::empty(),
        Some(d) => seq![44u8] + json_str(k_duration()) + seq![58u8] + dur_json(d),
    });
    proof {
        assert(out@ =~= base + a5);
    }
    let key_path: Vec<u8> = vec![112u8, 97u8, 116u8, 104u8];
    proof {
        assert(key_path@ =~= k_path());
    }
    push_opt_str_field(out, &key_path, &u.path);
    let ghost a6 = a5 + opt_str_field(k_path(), u@.path);
    proof {
        assert(out@ =~= base + a6);
    }
    let key_cov: Vec<u8> = vec![99u8, 111u8, 118u8, 101u8, 114u8, 97u8, 103u8, 101u8];
    proof {
        assert(key_cov@ =~= k_coverage());
    }
    push_opt_cov_field(out, &key_cov, &u.coverage);
    let ghost a7 = a6 + (match u@.coverage {
        None => Seq::<u8>::empty(),
        Some(c) => seq![44u8] + json_str(k_coverage()) + seq![58u8] + cov_json(c),
    });
    proof {
        assert(out@ =~= base + a7);
    }
    let key_det: Vec<u8> = vec![100u8, 101u8, 116u8, 97u8, 105u8, 108u8, 115u8];
    proof {
        assert(key_det@ =~= k_details());
    }
    push_opt_str_field(out, &key_det, &u.details);
    let ghost a8 = a7 + opt_str_field(k_details(), u@.details);
    proof {
        assert(out@ =~= base + a8);
    }
    let key_fmt: Vec<u8> = vec![102u8, 111u8, 114u8, 109u8, 97u8, 116u8];
    proof {
        assert(key_fmt@ =~= k_format());
    }
    push_opt_str_field(out, &key_fmt, &u.format);
    let ghost a9 = a8 + opt_str_field(k_format(), u@.format);
    proof {
        assert(out@ =~= base + a9);
    }
    out.push(125);
    proof {
        assert(a9 + seq![125u8] == unit_json(u@));
        assert(out@ =~= base + (a9 + seq![125u8]));
    }
}

/// Append one lint record as a JSON object.
#[verifier::rlimit(100)]
fn push_lint(out: &mut Vec<u8>, l: &LintRecord)
    ensures
        final(out)@ == old(out)@ + lint_json(l@),
{
    let ghost base = out@;
    out.push(123);
    let key_name: Vec<u8> = vec![110u8, 97u8, 109u8, 101u8];
    proof {
        assert(key_name@ =~= k_name());
    }
    push_str_field(out, false, &key_name, &l.name);
    let ghost a1 = seq![123u8] + str_field(k_name(), l@.name);
    proof {
        assert(out@ =~= base + a1);
    }
    let key_code: Vec<u8> = vec![99u8, 111u8, 100u8, 101u8];
    proof {
        assert(key_code@ =~= k_code());
    }
    push_str_field(out, true, &key_code, &l.code);
    let ghost a2 = a1 + seq![44u8] + str_field(k_code(), l@.code);
    proof {
        assert(out@ =~= base + a2);
    }
    let key_sev: Vec<u8> = vec![115u8, 101u8, 118u8, 101u8, 114u8, 105u8, 116u8, 121u8];
    proof {
        assert(key_sev@ =~= k_severity());
    }
    push_str_field(out, true, &key_sev, &l.severity);
    let ghost a3 = a2 + seq![44u8] + str_field(k_severity(), l@.severity);
    proof {
        assert(out@ =~= base + a3);
    }
    let key_path: Vec<u8> = vec![112u8, 97u8, 116u8, 104u8];
    proof {
        assert(key_path@ =~= k_path());
    }
    push_str_field(out, true, &key_path, &l.path);
    let ghost a4 = a3 + seq![44u8] + str_field(k_path(), l@.path);
    proof {
        assert(out@ =~= base + a4);
    }
    let key_line: Vec<u8> = vec![108u8, 105u8, 110u8, 101u8];
    proof {
        assert(key_line@ =~= k_line());
    }
    push_opt_num_field(out, &key_line, &l.line);
    let ghost a5 = a4 + (match l@.line {
        None => Seq::<u8>::empty(),
        Some(n) => seq![44u8] + json_str(k_line()) + seq![58u8] + dec_digits(n as nat),
    });
    proof {
        assert(out@ =~= base + a5);
    }
    let key_char: Vec<u8> = vec![99u8, 104u8, 97u8, 114u8];
    proof {
        assert(key_char@ =~= k_char());
    }
    push_opt_num_field(out, &key_char, &l.position);
    let ghost a6 = a5 + (match l@.position {
        None => Seq::<u8>::empty(),
        Some(n) => seq![44u8] + json_str(k_char()) + seq![58u8] + dec_digits(n as nat),
    });
    proof {
        assert(out@ =~= base + a6);
    }
    let key_desc: Vec<u8> = vec![
        100u8, 101u8, 115u8, 99u8, 114u8, 105u8, 112u8, 116u8, 105u8, 111u8, 110u8,
    ];
    proof {
        assert(key_desc@ =~= k_description());
    }
    push_opt_str_field(out, &key_desc, &l.description);
    let ghost a7 = a6 + opt_str_field(k_description(), l@.description);
    proof {
        assert(out@ =~= base + a7);
    }
    out.push(125);
    proof {
        assert(a7 + seq![125u8] == lint_json(l@));
        assert(out@ =~= base + (a7 + seq![125u8]));
    }
}

/// Append the unit array.
fn push_units(out: &mut Vec<u8>, v: &Vec<UnitRecord>)
    ensures
        final(out)@ == old(out)@ + units_json(units_view(v@)),
{
    out.push(91);
    let mut i: usize = 0;
    while i < v.len()
        invariant
            0 <= i <= v@.len(),
            out@ == old(out)@ + seq![91u8] + units_inner(units_view(v@).subrange(0, i as int)),
        decreases v@.len() - i,
    {
        if i > 0 {
            out.push(44);
        }
        push_unit(out, &v[i]);
        proof {
            let uv = units_view(v@);
            assert(uv.subrange(0, i + 1).drop_last() =~= uv.subrange(0, i as int));
            assert(uv.subrange(0, i + 1).last() == v@[i as int]@);
            assert(out@ =~= old(out)@ + seq![91u8] + units_inner(uv.subrange(0, i + 1)));
        }
        i += 1;
    }
    out.push(93);
    proof {
        assert(units_view(v@).subrange(0, v@.len() as int) =~= units_view(v@));
        assert(out@ =~= old(out)@ + units_json(units_view(v@)));
    }
}

/// Append the lint array.
fn push_lints(out: &mut Vec<u8>, v: &Vec<LintRecord>)
    ensures
        final(out)@ == old(out)@ + lints_json(lints_view(v@)),
{
    out.push(91);
    let mut i: usize = 0;
    while i < v.len()
        invariant
            0 <= i <= v@.len(),
            out@ == old(out)@ + seq![91u8] + lints_inner(lints_view(v@).subrange(0, i as int)),
        decreases v@.len() - i,
    {
        if i > 0 {
            out.push(44);
        }
        push_lint(out, &v[i]);
        proof {
            let lv = lints_view(v@);
            assert(lv.subrange(0, i + 1).drop_last() =~= lv.subrange(0, i as int));
            assert(lv.subrange(0, i + 1).last() == v@[i as int]@);
            assert(out@ =~= old(out)@ + seq![91u8] + lints_inner(lv.subrange(0, i + 1)));
        }
        i += 1;
    }
    out.push(93);
    proof {
        assert(lints_view(v@).subrange(0, v@.len() as int) =~= lints_view(v@));
        assert(out@ =~= old(out)@ + lints_json(lints_view(v@)));
    }
}

/// The textual name of a status value.
pub fn status_bytes(s: &Status) -> (r: Vec<u8>)
    ensures
        r@ == status_name(*s),
{
    match s {
        Status::Abort => {
            let v: Vec<u8> = vec![97u8, 98u8, 111u8, 114u8, 116u8];
            proof {
                assert(v@ =~= status_name(Status::Abort));
            }
            v
        },
        Status::Fail => {
            let v: Vec<u8> = vec![102u8, 97u8, 105u8, 108u8];
            proof {
                assert(v@ =~= status_name(Status::Fail));
            }
            v
        },
        Status::Pass => {
            let v: Vec<u8> = vec![112u8, 97u8, 115u8, 115u8];
            proof {
                assert(v@ =~= status_name(Status::Pass));
            }
            v
        },
        Status::Pause => {
            let v: Vec<u8> = vec![112u8, 97u8, 117u8, 115u8, 101u8];
            proof {
                assert(v@ =~= status_name(Status::Pause));
            }
            v
        },
        Status::Restart => {
            let v: Vec<u8> = vec![114u8, 101u8, 115u8, 116u8, 97u8, 114u8, 116u8];
            proof {
                assert(v@ =~= status_name(Status::Restart));
            }
            v
        },
        Status::Resume => {
            let v: Vec<u8> = vec![114u8, 101u8, 115u8, 117u8, 109u8, 101u8];
            proof {
                assert(v@ =~= status_name(Status::Resume));
            }
            v
        },
        Status::Work => {
            let v: Vec<u8> = vec![119u8, 111u8, 114u8, 107u8];
            proof {
                assert(v@ =~= status_name(Status::Work));
            }
            v
        },
    }
}

/// Render a whole payload as one JSON document.
#[verifier::rlimit(100)]
pub fn render_payload(p: &ReportPayload) -> (r: Vec<u8>)
    ensures
        r@ == payload_json(p@),
{
    let mut out: Vec<u8> = Vec::new();
    out.push(123);
    let key_build: Vec<u8> = vec![
        98u8, 117u8, 105u8, 108u8, 100u8, 84u8, 97u8, 114u8, 103u8, 101u8, 116u8, 80u8, 72u8, 73u8,
        68u8,
    ];
    proof {
        assert(key_build@ =~= k_build());
    }
    push_str_field(&mut out, false, &key_build, &p.build);
    let ghost a1 = seq![123u8] + str_field(k_build(), p@.build);
    proof {
        assert(out@ =~= a1);
    }
    let key_type: Vec<u8> = vec![116u8, 121u8, 112u8, 101u8];
    proof {
        assert(key_type@ =~= k_type());
    }
    let st = status_bytes(&p.status);
    push_str_field(&mut out, true, &key_type, &st);
    let ghost a2 = a1 + seq![44u8] + str_field(k_type(), status_name(p@.status));
    proof {
        assert(out@ =~= a2);
    }
    let key_unit: Vec<u8> = vec![117u8, 110u8, 105u8, 116u8];
    proof {
        assert(key_unit@ =~= k_unit());
    }
    match &p.unit {
        None => {},
        Some(v) => {
            out.push(44);
            push_json_str(&mut out, &key_unit);
            out.push(58);
            push_units(&mut out, v);
        },
    }
    let ghost a3 = a2 + (match p@.unit {
        None => Seq::<u8>::empty(),
        Some(us) => seq![44u8] + json_str(k_unit()) + seq![58u8] + units_json(us),
    });
    proof {
        assert(out@ =~= a3);
    }
    let key_lint: Vec<u8> = vec![108u8, 105u8, 110u8, 116u8];
    proof {
        assert(key_lint@ =~= k_lint());
    }
    match &p.lint {
        None => {},
        Some(v) => {
            out.push(44);
            push_json_str(&mut out, &key_lint);
            out.push(58);
            push_lints(&mut out, v);
        },
    }
    let ghost a4 = a3 + (match p@.lint {
        None => Seq::<u8>::empty(),
        Some(ls) => seq![44u8] + json_str(k_lint()) + seq![58u8] + lints_json(ls),
    });
    proof {
        assert(out@ =~= a4);
    }
    out.push(44);
    let key_cd: Vec<u8> = vec![95u8, 95u8, 99u8, 111u8, 110u8, 100u8, 117u8, 105u8, 116u8, 95u8, 95u8];
    proof {
        assert(key_cd@ =~= k_conduit());
    }
    push_json_str(&mut out, &key_cd);
    out.push(58);
    out.push(123);
    let key_tok: Vec<u8> = vec![116u8, 111u8, 107u8, 101u8, 110u8];
    proof {
        assert(key_tok@ =~= k_token());
    }
    push_str_field(&mut out, false, &key_tok, &p.auth.token);
    let ghost a5 = a4 + seq![44u8] + json_str(k_conduit()) + seq![58u8] + seq![123u8] + str_field(
        k_token(),
        p@.token,
    );
    proof {
        assert(out@ =~= a5);
    }
    out.push(125);
    out.push(125);
    proof {
        assert(a5 + seq![125u8] + seq![125u8] == payload_json(p@));
        assert(out@ =~= a5 + seq![125u8] + seq![125u8]);
    }
    out
}

} // verus!
