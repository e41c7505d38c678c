//! The diagnostic-stream extractor: decodes a compiler/linter message stream
//! and reduces it to a deduplicated collection of lint records.
//!
//! Decoding the stream is the work of `cargo_metadata` and stands behind
//! trusted items; everything after the decoded messages — skipping messages
//! without a code, classifying the source, joining paths, deduplicating — is
//! verified.
use vstd::prelude::*;

use crate::bytes::{bytes_eq, contains_sub, find_sub, push_all};
use crate::records::{lints_view, LintRecord, LintV, ParseFailure};

verus! {

/// A decoded diagnostic message, reduced to the parts the extractor reads.
pub struct RawDiag {
    /// The diagnostic's rule identifier, if it has one.
    pub code: Option<Vec<u8>>,
    /// The diagnostic level's name (`Error`, `Warning`, ...).
    pub level: Vec<u8>,
    /// The free-text message body.
    pub message: Vec<u8>,
    /// File name and 1-based start line of the first reported span.
    pub first_span: Option<RawSpan>,
}

/// The location part of a diagnostic span.
pub struct RawSpan {
    pub file_name: Vec<u8>,
    pub line_start: usize,
}

/// Mathematical value of a [`RawSpan`].
pub ghost struct SpanV {
    pub file_name: Seq<u8>,
    pub line_start: int,
}

impl View for RawSpan {
    type V = SpanV;

    open spec fn view(&self) -> SpanV {
        SpanV { file_name: self.file_name@, line_start: self.line_start as int }
    }
}

/// Mathematical value of a [`RawDiag`].
pub ghost struct DiagV {
    pub code: Option<Seq<u8>>,
    pub level: Seq<u8>,
    pub message: Seq<u8>,
    pub first_span: Option<SpanV>,
}

impl View for RawDiag {
    type V = DiagV;

    open spec fn view(&self) -> DiagV {
        DiagV {
            code: match self.code {
                Some(c) => Some(c@),
                None => None,
            },
            level: self.level@,
            message: self.message@,
            first_span: match self.first_span {
                Some(s) => Some(s@),
                None => None,
            },
        }
    }
}

/// View of a vector of decoded diagnostics.
pub open spec fn diags_view(s: Seq<RawDiag>) -> Seq<DiagV> {
    s.map_values(|d: RawDiag| d@)
}

/// What the diagnostic stream `bytes` decodes to: the compiler messages of
/// the stream in order, reduced to the read fields, or nothing when the
/// stream cannot be decoded. The result depends on the bytes alone.
pub uninterp spec fn decoded_diag_stream(bytes: Seq<u8>) -> Option<Seq<DiagV>>;

/// Relies on `cargo_metadata::Message::parse_stream`: each line of the
/// artifact decodes to one message (a line that is not valid JSON counts as
/// plain text, and a line that is not UTF-8 stops the stream with an error).
/// Only compiler messages are kept; of each, this takes the diagnostic code,
/// the Debug-rendered level name, the message body, and the first span's file
/// name and start line.
#[verifier::external_body]
fn read_diag_stream(bytes: &Vec<u8>) -> (r: Result<Vec<RawDiag>, ParseFailure>)
    ensures
        match r {
            Ok(v) => decoded_diag_stream(bytes@) == Some(diags_view(v@)),
            Err(f) => decoded_diag_stream(bytes@) is None && f == ParseFailure::MalformedStream,
        },
{
    let mut out: Vec<RawDiag> = Vec::new();
    for m in cargo_metadata::Message::parse_stream(bytes.as_slice()) {
        let d = match m {
            Ok(cargo_metadata::Message::CompilerMessage(c)) => c.message,
            Ok(_) => continue,
            Err(_) => return Err(ParseFailure::MalformedStream),
        };
        let sp = d.spans.into_iter().next().map(
            |s| RawSpan { file_name: s.file_name.into_bytes(), line_start: s.line_start });
        out.push(RawDiag { code: d.code.map(|c| c.code.into_bytes()),
            level: format!("{:?}", d.level).into_bytes(),
            message: d.message.into_bytes(), first_span: sp });
    }
    Ok(out)
}

/// The marker substring of linter-produced codes: `clippy`.
pub open spec fn linter_marker() -> Seq<u8> {
    seq![99u8, 108u8, 105u8, 112u8, 112u8, 121u8]
}

/// The source name of linter findings: `cargo-clippy`.
pub open spec fn linter_source() -> Seq<u8> {
    seq![99u8, 97u8, 114u8, 103u8, 111u8, 45u8, 99u8, 108u8, 105u8, 112u8, 112u8, 121u8]
}

/// The source name of check-only findings: `cargo-check`.
pub open spec fn check_source() -> Seq<u8> {
    seq![99u8, 97u8, 114u8, 103u8, 111u8, 45u8, 99u8, 104u8, 101u8, 99u8, 107u8]
}

/// Join the workspace root and a file name: an empty root or an absolute file
/// name leaves the file name as given; otherwise exactly one separator stands
/// between them.
pub open spec fn join_path(ws: Seq<u8>, f: Seq<u8>) -> Seq<u8> {
    if ws.len() == 0 {
        f
    } else if f.len() > 0 && f[0] == 47 {
        f
    } else if ws.last() == 47 {
        ws + f
    } else {
        ws + seq![47u8] + f
    }
}

/// Join the workspace root and a file name.
pub fn join_path_exec(ws: &Vec<u8>, f: &Vec<u8>) -> (r: Vec<u8>)
    ensures
        r@ == join_path(ws@, f@),
{
    if ws.len() == 0 {
        let mut out: Vec<u8> = Vec::new();
        push_all(&mut out, f);
        proof {
            assert(out@ =~= f@);
        }
        return out;
    }
    if f.len() > 0 && f[0] == 47 {
        let mut out: Vec<u8> = Vec::new();
        push_all(&mut out, f);
        proof {
            assert(out@ =~= f@);
        }
        return out;
    }
    let mut out: Vec<u8> = Vec::new();
    push_all(&mut out, ws);
    if ws[ws.len() - 1] != 47 {
        out.push(47);
    }
    push_all(&mut out, f);
    proof {
        if ws@.last() == 47 {
            assert(out@ =~= ws@ + f@);
        } else {
            assert(out@ =~= ws@ + seq![47u8] + f@);
        }
    }
    out
}

/// The lint record of one diagnostic: nothing without a code (build noise)
/// or without a span; otherwise the classified, located finding.
pub open spec fn lint_of_diag(d: DiagV, ws: Seq<u8>) -> Option<LintV> {
    match d.code {
        None => None,
        Some(c) => match d.first_span {
            None => None,
            Some(sp) => Some(
                LintV {
                    name: if contains_sub(c, linter_marker()) {
                        linter_source()
                    } else {
                        check_source()
                    },
                    code: c,
                    severity: d.level,
                    path: join_path(ws, sp.file_name),
                    line: Some(sp.line_start),
                    position: None,
                    description: Some(d.message),
                },
            ),
        },
    }
}

/// The records of a diagnostic stream, in first-appearance order, exact
/// duplicates collapsed.
pub open spec fn lints_of(ds: Seq<DiagV>, ws: Seq<u8>) -> Seq<LintV>
    decreases ds.len(),
{
    if ds.len() == 0 {
        Seq::empty()
    } else {
        let prev = lints_of(ds.drop_last(), ws);
        match lint_of_diag(ds.last(), ws) {
            None => prev,
            Some(r) => if prev.contains(r) {
                prev
            } else {
                prev.push(r)
            },
        }
    }
}

/// A message without a diagnostic code yields no record.
pub proof fn lemma_diag_without_code(d: DiagV, ws: Seq<u8>)
    requires
        d.code is None,
    ensures
        lint_of_diag(d, ws) is None,
{
}

/// A stream whose messages all lack a diagnostic code yields no records.
pub proof fn lemma_no_code_no_lint(ds: Seq<DiagV>, ws: Seq<u8>)
    requires
        forall|i: int| 0 <= i < ds.len() ==> (#[trigger] ds[i]).code is None,
    ensures
        lints_of(ds, ws) == Seq::<LintV>::empty(),
    decreases ds.len(),
{
    if ds.len() > 0 {
        assert(ds.last().code is None);
        lemma_no_code_no_lint(ds.drop_last(), ws);
    }
}

/// The extracted collection holds no duplicate record, and holds a record
/// exactly when some message of the stream yields it.
pub proof fn lemma_lints_dedup(ds: Seq<DiagV>, ws: Seq<u8>)
    ensures
        forall|i: int, j: int|
            0 <= i < j < lints_of(ds, ws).len() ==> lints_of(ds, ws)[i] != lints_of(ds, ws)[j],
        forall|r: LintV|
            lints_of(ds, ws).contains(r) <==> exists|i: int|
                0 <= i < ds.len() && lint_of_diag(#[trigger] ds[i], ws) == Some(r),
    decreases ds.len(),
{
    let out = lints_of(ds, ws);
    if ds.len() > 0 {
        let dsp = ds.drop_last();
        lemma_lints_dedup(dsp, ws);
        let prev = lints_of(dsp, ws);
        assert forall|r: LintV| out.contains(r) implies exists|i: int|
            0 <= i < ds.len() && lint_of_diag(#[trigger] ds[i], ws) == Some(r) by {
            if prev.contains(r) {
                let i = choose|i: int|
                    0 <= i < dsp.len() && lint_of_diag(#[trigger] dsp[i], ws) == Some(r);
                assert(ds[i] == dsp[i]);
                assert(lint_of_diag(ds[i], ws) == Some(r));
            } else {
                assert(lint_of_diag(ds[ds.len() - 1], ws) == Some(r));
            }
        }
        assert forall|r: LintV| (exists|i: int|
            0 <= i < ds.len() && lint_of_diag(#[trigger] ds[i], ws) == Some(r)) implies out
            .contains(r) by {
            let i = choose|i: int| 0 <= i < ds.len() && lint_of_diag(#[trigger] ds[i], ws)
                == Some(r);
            if i < ds.len() - 1 {
                assert(dsp[i] == ds[i]);
                assert(prev.contains(r));
                match lint_of_diag(ds.last(), ws) {
                    None => {},
                    Some(rr) => {
                        if !prev.contains(rr) {
                            let j = choose|j: int| 0 <= j < prev.len() && prev[j] == r;
                            assert(out[j] == r);
                        }
                    },
                }
            } else {
                match lint_of_diag(ds.last(), ws) {
                    None => {},
                    Some(rr) => {
                        if prev.contains(rr) {
                        } else {
                            assert(out[out.len() - 1] == rr);
                        }
                    },
                }
            }
        }
        match lint_of_diag(ds.last(), ws) {
            None => {},
            Some(rr) => {
                if !prev.contains(rr) {
                    assert forall|i: int, j: int| 0 <= i < j < out.len() implies out[i]
                        != out[j] by {
                        if j == out.len() - 1 {
                            assert(out[i] == prev[i]);
                            if prev[i] == rr {
                                assert(prev.contains(rr));
                            }
                        }
                    }
                }
            },
        }
    }
}

/// A code holding the linter marker classifies as the linter source name;
/// one without it as the check-only source name.
pub proof fn lemma_classification(d: DiagV, ws: Seq<u8>, r: LintV)
    requires
        lint_of_diag(d, ws) == Some(r),
    ensures
        contains_sub(r.code, linter_marker()) ==> r.name == linter_source(),
        !contains_sub(r.code, linter_marker()) ==> r.name == check_source(),
{
}

/// Decide structural equality of two lint records.
fn lint_eq(a: &LintRecord, b: &LintRecord) -> (r: bool)
    ensures
        r == (a@ == b@),
{
    let name_eq = bytes_eq(&a.name, &b.name);
    let code_eq = bytes_eq(&a.code, &b.code);
    let sev_eq = bytes_eq(&a.severity, &b.severity);
    let path_eq = bytes_eq(&a.path, &b.path);
    let line_eq: bool = match (&a.line, &b.line) {
        (Some(x), Some(y)) => *x == *y,
        (None, None) => true,
        _ => false,
    };
    let pos_eq: bool = match (&a.position, &b.position) {
        (Some(x), Some(y)) => *x == *y,
        (None, None) => true,
        _ => false,
    };
    let desc_eq: bool = match (&a.description, &b.description) {
        (Some(x), Some(y)) => bytes_eq(x, y),
        (None, None) => true,
        _ => false,
    };
    name_eq && code_eq && sev_eq && path_eq && line_eq && pos_eq && desc_eq
}

/// Is a record already in the collection?
fn contains_lint(v: &Vec<LintRecord>, r: &LintRecord) -> (found: bool)
    ensures
        found == lints_view(v@).contains(r@),
{
    let mut i: usize = 0;
    while i < v.len()
        invariant
            0 <= i <= v@.len(),
            forall|k: int| 0 <= k < i ==> lints_view(v@)[k] != r@,
        decreases v@.len() - i,
    {
        if lint_eq(&v[i], r) {
            proof {
                assert(lints_view(v@)[i as int] == r@);
            }
            return true;
        }
        i += 1;
    }
    false
}

/// The lint record of one decoded diagnostic.
fn lint_of_diag_exec(d: &RawDiag, ws: &Vec<u8>) -> (r: Option<LintRecord>)
    ensures
        match r {
            Some(l) => lint_of_diag(d@, ws@) == Some(l@),
            None => lint_of_diag(d@, ws@) is None,
        },
{
    let code: &Vec<u8> = match &d.code {
        None => {
            return None;
        },
        Some(c) => c,
    };
    let sp: &RawSpan = match &d.first_span {
        None => {
            return None;
        },
        Some(s) => s,
    };
    let marker: Vec<u8> = vec![99u8, 108u8, 105u8, 112u8, 112u8, 121u8];
    proof {
        assert(marker@ =~= linter_marker());
    }
    let name: Vec<u8> = if find_sub(code, &marker) {
        let n: Vec<u8> = vec![
            99u8, 97u8, 114u8, 103u8, 111u8, 45u8, 99u8, 108u8, 105u8, 112u8, 112u8, 121u8,
        ];
        proof {
            assert(n@ =~= linter_source());
        }
        n
    } else {
        let n: Vec<u8> = vec![99u8, 97u8, 114u8, 103u8, 111u8, 45u8, 99u8, 104u8, 101u8, 99u8, 107u8];
        proof {
            assert(n@ =~= check_source());
        }
        n
    };
    let mut code_copy: Vec<u8> = Vec::new();
    push_all(&mut code_copy, code);
    let mut severity: Vec<u8> = Vec::new();
    push_all(&mut severity, &d.level);
    let mut description: Vec<u8> = Vec::new();
    push_all(&mut description, &d.message);
    let path = join_path_exec(ws, &sp.file_name);
    proof {
        assert(code_copy@ =~= code@);
        assert(severity@ =~= d.level@);
        assert(description@ =~= d.message@);
    }
    Some(
        LintRecord {
            name,
            code: code_copy,
            severity,
            path,
            line: Some(sp.line_start),
            position: None,
            description: Some(description),
        },
    )
}

/// Extract the deduplicated lint records of a decoded stream.
fn extract_lints(diags: &Vec<RawDiag>, ws: &Vec<u8>) -> (r: Vec<LintRecord>)
    ensures
        lints_view(r@) == lints_of(diags_view(diags@), ws@),
{
    let ghost dv = diags_view(diags@);
    let mut out: Vec<LintRecord> = Vec::new();
    let mut i: usize = 0;
    proof {
        assert(dv.subrange(0, 0) =~= Seq::<DiagV>::empty());
        assert(lints_view(out@) =~= Seq::<LintV>::empty());
    }
    while i < diags.len()
        invariant
            0 <= i <= diags@.len(),
            dv == diags_view(diags@),
            lints_view(out@) == lints_of(dv.subrange(0, i as int), ws@),
        decreases diags@.len() - i,
    {
        proof {
            assert(dv.subrange(0, i + 1).drop_last() =~= dv.subrange(0, i as int));
            assert(dv.subrange(0, i + 1).last() == diags@[i as int]@);
        }
        match lint_of_diag_exec(&diags[i], ws) {
            None => {},
            Some(rec) => {
                if !contains_lint(&out, &rec) {
                    let ghost lv_old = lints_view(out@);
                    let ghost rv = rec@;
                    out.push(rec);
                    proof {
                        assert(lints_view(out@) =~= lv_old.push(rv));
                    }
                }
            },
        }
        proof {
            assert(lints_view(out@) == lints_of(dv.subrange(0, i + 1), ws@));
        }
        i += 1;
    }
    proof {
        assert(dv.subrange(0, diags@.len() as int) =~= dv);
    }
    out
}

/// Extract the lint records of a raw diagnostic-stream artifact.
///
/// A stream that decodes yields its records in first-appearance order with
/// exact duplicates collapsed; a stream that cannot be decoded is the one
/// failure.
pub fn lint_records_from_bytes(bytes: &Vec<u8>, workspace: &Vec<u8>) -> (r: Result<
    Vec<LintRecord>,
    ParseFailure,
>)
    ensures
        match r {
            Ok(v) => decoded_diag_stream(bytes@) is Some && lints_view(v@) == lints_of(
                decoded_diag_stream(bytes@).unwrap(),
                workspace@,
            ),
            Err(f) => decoded_diag_stream(bytes@) is None && f == ParseFailure::MalformedStream,
        },
{
    match read_diag_stream(bytes) {
        Err(f) => Err(f),
        Ok(diags) => Ok(extract_lints(&diags, workspace)),
    }
}

} // verus!
