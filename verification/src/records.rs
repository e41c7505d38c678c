//! The result schema: lint records, unit records, the report payload, and
//! their mathematical views.
use vstd::prelude::*;

use crate::bytes::is_digit;

verus! {

/// Overall build status reported to the tracking API.
#[derive(Clone, Copy, PartialEq, Eq, Structural, Debug)]
pub enum Status {
    Abort,
    Fail,
    Pass,
    Pause,
    Restart,
    Resume,
    Work,
}

/// Why an extractor could not produce records from an artifact.
#[derive(Clone, Copy, PartialEq, Eq, Structural, Debug)]
pub enum ParseFailure {
    /// The diagnostic stream could not be decoded.
    MalformedStream,
    /// A matched test-log line carried a duration token that is not a number.
    MalformedDuration,
}

/// An exact elapsed-time value in seconds, kept as a normalized decimal:
/// integer digits with no leading zero (except the single digit `0`) and
/// fractional digits with no trailing zero.
#[derive(Clone, Debug)]
pub struct Duration {
    pub int_digits: Vec<u8>,
    pub frac_digits: Vec<u8>,
}

/// Mathematical value of a [`Duration`].
pub ghost struct DurationV {
    pub int_digits: Seq<u8>,
    pub frac_digits: Seq<u8>,
}

impl View for Duration {
    type V = DurationV;

    open spec fn view(&self) -> DurationV {
        DurationV { int_digits: self.int_digits@, frac_digits: self.frac_digits@ }
    }
}

/// The normalized-decimal invariant of a duration value.
pub open spec fn dur_wf(d: DurationV) -> bool {
    &&& d.int_digits.len() >= 1
    &&& forall|i: int| 0 <= i < d.int_digits.len() ==> is_digit(#[trigger] d.int_digits[i])
    &&& forall|i: int| 0 <= i < d.frac_digits.len() ==> is_digit(#[trigger] d.frac_digits[i])
    &&& (d.int_digits.len() > 1 ==> d.int_digits[0] != 48)
    &&& (d.frac_digits.len() > 0 ==> d.frac_digits[d.frac_digits.len() - 1] != 48)
}

/// The duration zero: no integer magnitude, no fraction.
pub open spec fn dur_zero() -> DurationV {
    DurationV { int_digits: seq![48u8], frac_digits: seq![] }
}

/// One coverage mapping entry (never produced by the extractors; reserved).
#[derive(Clone, Debug)]
pub struct CoverageEntry {
    pub key: Vec<u8>,
    pub value: Vec<u8>,
}

/// One test execution outcome.
#[derive(Clone, Debug)]
pub struct UnitRecord {
    pub name: Vec<u8>,
    pub result: Vec<u8>,
    pub namespace: Option<Vec<u8>>,
    pub engine: Option<Vec<u8>>,
    pub duration: Option<Duration>,
    pub path: Option<Vec<u8>>,
    pub coverage: Option<Vec<CoverageEntry>>,
    pub details: Option<Vec<u8>>,
    pub format: Option<Vec<u8>>,
}

/// Mathematical value of a [`UnitRecord`].
pub ghost struct UnitV {
    pub name: Seq<u8>,
    pub result: Seq<u8>,
    pub namespace: Option<Seq<u8>>,
    pub engine: Option<Seq<u8>>,
    pub duration: Option<DurationV>,
    pub path: Option<Seq<u8>>,
    pub coverage: Option<Seq<(Seq<u8>, Seq<u8>)>>,
    pub details: Option<Seq<u8>>,
    pub format: Option<Seq<u8>>,
}

/// View of a coverage mapping.
pub open spec fn cov_view(s: Seq<CoverageEntry>) -> Seq<(Seq<u8>, Seq<u8>)> {
    s.map_values(|e: CoverageEntry| (e.key@, e.value@))
}

/// View of an optional byte string.
pub open spec fn opt_bytes_view(o: Option<Vec<u8>>) -> Option<Seq<u8>> {
    match o {
        Some(v) => Some(v@),
        None => None,
    }
}

impl View for UnitRecord {
    type V = UnitV;

    open spec fn view(&self) -> UnitV {
        UnitV {
            name: self.name@,
            result: self.result@,
            namespace: opt_bytes_view(self.namespace),
            engine: opt_bytes_view(self.engine),
            duration: match self.duration {
                Some(d) => Some(d@),
                None => None,
            },
            path: opt_bytes_view(self.path),
            coverage: match self.coverage {
                Some(c) => Some(cov_view(c@)),
                None => None,
            },
            details: opt_bytes_view(self.details),
            format: opt_bytes_view(self.format),
        }
    }
}

/// The dedup key of a unit record: its (namespace, name) pair.
pub open spec fn unit_key(u: UnitV) -> (Option<Seq<u8>>, Seq<u8>) {
    (u.namespace, u.name)
}

/// One diagnostic finding.
#[derive(Clone, Debug)]
pub struct LintRecord {
    pub name: Vec<u8>,
    pub code: Vec<u8>,
    pub severity: Vec<u8>,
    pub path: Vec<u8>,
    pub line: Option<usize>,
    pub position: Option<usize>,
    pub description: Option<Vec<u8>>,
}

/// Mathematical value of a [`LintRecord`].
pub ghost struct LintV {
    pub name: Seq<u8>,
    pub code: Seq<u8>,
    pub severity: Seq<u8>,
    pub path: Seq<u8>,
    pub line: Option<int>,
    pub position: Option<int>,
    pub description: Option<Seq<u8>>,
}

impl View for LintRecord {
    type V = LintV;

    open spec fn view(&self) -> LintV {
        LintV {
            name: self.name@,
            code: self.code@,
            severity: self.severity@,
            path: self.path@,
            line: match self.line {
                Some(n) => Some(n as int),
                None => None,
            },
            position: match self.position {
                Some(n) => Some(n as int),
                None => None,
            },
            description: opt_bytes_view(self.description),
        }
    }
}

/// The nested authentication object of the payload.
#[derive(Clone, Debug)]
pub struct AuthToken {
    pub token: Vec<u8>,
}

/// The root report document.
#[derive(Clone, Debug)]
pub struct ReportPayload {
    pub build: Vec<u8>,
    pub status: Status,
    pub unit: Option<Vec<UnitRecord>>,
    pub lint: Option<Vec<LintRecord>>,
    pub auth: AuthToken,
}

/// Mathematical value of a [`ReportPayload`].
pub ghost struct PayloadV {
    pub build: Seq<u8>,
    pub status: Status,
    pub unit: Option<Seq<UnitV>>,
    pub lint: Option<Seq<LintV>>,
    pub token: Seq<u8>,
}

/// View of a sequence of unit records.
pub open spec fn units_view(s: Seq<UnitRecord>) -> Seq<UnitV> {
    s.map_values(|u: UnitRecord| u@)
}

/// View of a sequence of lint records.
pub open spec fn lints_view(s: Seq<LintRecord>) -> Seq<LintV> {
    s.map_values(|l: LintRecord| l@)
}

impl View for ReportPayload {
    type V = PayloadV;

    open spec fn view(&self) -> PayloadV {
        PayloadV {
            build: self.build@,
            status: self.status,
            unit: match self.unit {
                Some(v) => Some(units_view(v@)),
                None => None,
            },
            lint: match self.lint {
                Some(v) => Some(lints_view(v@)),
                None => None,
            },
            token: self.auth.token@,
        }
    }
}

} // verus!
