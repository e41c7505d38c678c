//! Normalizes build-tool output into one unified CI status payload.
//!
//! Two independent extractors turn raw artifact bytes into typed records: a
//! diagnostic-stream extractor producing deduplicated lint records, and a
//! test-log extractor producing one unit record per (namespace, name) key.
//! An assembler merges both with caller-supplied scalars into a report
//! payload, sorting unit results by duration descending, and a renderer
//! emits the payload as a JSON document.
use vstd::prelude::*;

pub mod bytes;
pub mod duration;
pub mod json;
pub mod lint;
pub mod records;
pub mod report;
pub mod unit;

verus! {

use crate::json::{payload_json, render_payload};
use crate::lint::{decoded_diag_stream, lint_records_from_bytes, lints_of};
use crate::records::{opt_bytes_view, LintRecord, LintV, ParseFailure, PayloadV, Status,
    UnitRecord, UnitV};
use crate::report::{assemble_report, sorted_desc};
use crate::unit::{split_lines, unit_records_from_bytes, units_of_lines};

/// The lint records owed for an optional diagnostic artifact: none without an
/// artifact, and none for a stream that does not decode.
pub open spec fn expected_lints(diag: Option<Seq<u8>>, ws: Seq<u8>) -> Seq<LintV> {
    match diag {
        None => Seq::empty(),
        Some(b) => match decoded_diag_stream(b) {
            None => Seq::empty(),
            Some(ds) => lints_of(ds, ws),
        },
    }
}

/// The unit records owed for an optional test-log artifact, before sorting:
/// none without an artifact, and none for a log with a malformed duration.
pub open spec fn expected_units(log: Option<Seq<u8>>) -> Seq<UnitV> {
    match log {
        None => Seq::empty(),
        Some(c) => match units_of_lines(split_lines(c)) {
            None => Seq::empty(),
            Some(m) => m,
        },
    }
}

/// Run the whole pipeline: extract both artifacts (each failure degrading to
/// an empty contribution), assemble the payload, and render it as JSON.
pub fn build_report(
    status: Status,
    build: Vec<u8>,
    token: Vec<u8>,
    workspace: Vec<u8>,
    diag_bytes: Option<Vec<u8>>,
    log_bytes: Option<Vec<u8>>,
) -> (r: Vec<u8>)
    ensures
        exists|us: Seq<UnitV>|
            {
                &&& #[trigger] sorted_desc(us)
                &&& us.to_multiset() == expected_units(opt_bytes_view(log_bytes)).to_multiset()
                &&& r@ == payload_json(
                    PayloadV {
                        build: build@,
                        status,
                        unit: Some(us),
                        lint: Some(expected_lints(opt_bytes_view(diag_bytes), workspace@)),
                        token: token@,
                    },
                )
            },
{
    let lints: Result<Vec<LintRecord>, ParseFailure> = match &diag_bytes {
        None => Ok(Vec::new()),
        Some(b) => lint_records_from_bytes(b, &workspace),
    };
    let units: Result<Vec<UnitRecord>, ParseFailure> = match &log_bytes {
        None => Ok(Vec::new()),
        Some(c) => unit_records_from_bytes(c),
    };
    proof {
        assert(crate::records::lints_view(Seq::<LintRecord>::empty()) =~= Seq::<LintV>::empty());
        assert(crate::records::units_view(Seq::<UnitRecord>::empty()) =~= Seq::<UnitV>::empty());
    }
    let payload = assemble_report(status, build, token, lints, units);
    let out = render_payload(&payload);
    proof {
        let us = payload@.unit.unwrap();
        assert(sorted_desc(us));
        assert(us.to_multiset() == expected_units(opt_bytes_view(log_bytes)).to_multiset());
        assert(payload@.lint == Some(expected_lints(opt_bytes_view(diag_bytes), workspace@)));
        assert(out@ == payload_json(
            PayloadV {
                build: build@,
                status,
                unit: Some(us),
                lint: Some(expected_lints(opt_bytes_view(diag_bytes), workspace@)),
                token: token@,
            },
        ));
    }
    out
}

} // verus!
