use ci_report::json::render_payload;
use ci_report::lint::{join_path_exec, lint_records_from_bytes};
use ci_report::records::{
    AuthToken, CoverageEntry, Duration, LintRecord, ParseFailure, ReportPayload, Status,
    UnitRecord,
};
use ci_report::report::{assemble_report, sort_units};
use ci_report::unit::unit_records_from_bytes;
use ci_report::build_report;

fn b(s: &str) -> Vec<u8> {
    s.as_bytes().to_vec()
}

fn span_json(file: &str, line: usize) -> String {
    format!(
        "{{\"file_name\":\"{}\",\"byte_start\":0,\"byte_end\":1,\"line_start\":{},\"line_end\":{},\
         \"column_start\":1,\"column_end\":2,\"is_primary\":true,\"text\":[],\"label\":null,\
         \"suggested_replacement\":null,\"suggestion_applicability\":null,\"expansion\":null}}",
        file, line, line
    )
}

fn message_json(code: Option<&str>, level: &str, text: &str, spans: &[String]) -> String {
    let code_part = match code {
        Some(c) => format!("{{\"code\":\"{}\",\"explanation\":null}}", c),
        None => "null".to_string(),
    };
    format!(
        "{{\"reason\":\"compiler-message\",\"package_id\":\"pkg 0.1.0 (path+file:///x)\",\
         \"target\":{{\"name\":\"pkg\",\"kind\":[\"lib\"],\"src_path\":\"/x/src/lib.rs\"}},\
         \"message\":{{\"message\":\"{}\",\"code\":{},\"level\":\"{}\",\"spans\":[{}],\
         \"children\":[],\"rendered\":null}}}}",
        text,
        code_part,
        level,
        spans.join(",")
    )
}

#[test]
fn empty_report_scenario() {
    // No diagnostic artifact and no log artifact: empty sequences, type pass.
    let out = build_report(
        Status::Pass,
        b("PHID-HMBT-1"),
        b("s3cret"),
        b(""),
        None,
        None,
    );
    let v: serde_json::Value = serde_json::from_slice(&out).unwrap();
    assert_eq!(v["buildTargetPHID"], "PHID-HMBT-1");
    assert_eq!(v["type"], "pass");
    assert_eq!(v["unit"].as_array().unwrap().len(), 0);
    assert_eq!(v["lint"].as_array().unwrap().len(), 0);
    assert_eq!(v["__conduit__"]["token"], "s3cret");
}

#[test]
fn nextest_line_scenario() {
    let recs = unit_records_from_bytes(&b("PASS [ 0.52s] mycrate::tests test_add")).unwrap();
    assert_eq!(recs.len(), 1);
    let r = &recs[0];
    assert_eq!(r.name, b("test_add"));
    assert_eq!(r.result, b("pass"));
    assert_eq!(r.namespace.as_ref().unwrap(), &b("mycrate::tests"));
    assert_eq!(r.engine.as_ref().unwrap(), &b("cargo-nextest"));
    let d = r.duration.as_ref().unwrap();
    assert_eq!(d.int_digits, b("0"));
    assert_eq!(d.frac_digits, b("52"));
    assert!(r.path.is_none());
    assert!(r.coverage.is_none());
    assert!(r.details.is_none());
    assert!(r.format.is_none());
}

#[test]
fn status_word_is_lowercased_and_duration_parsed() {
    let recs = unit_records_from_bytes(&b("FAIL [12.30s] ns nm")).unwrap();
    assert_eq!(recs.len(), 1);
    assert_eq!(recs[0].result, b("fail"));
    let d = recs[0].duration.as_ref().unwrap();
    assert_eq!(d.int_digits, b("12"));
    assert_eq!(d.frac_digits, b("3"));
}

#[test]
fn duration_normalization() {
    let recs =
        unit_records_from_bytes(&b("PASS [007.500s] a b\nPASS [ .5s] a c\nPASS [ 5.s] a d"))
            .unwrap();
    let find = |name: &str| {
        recs.iter()
            .find(|r| r.name == b(name))
            .unwrap()
            .duration
            .clone()
            .unwrap()
    };
    let d1 = find("b");
    assert_eq!(d1.int_digits, b("7"));
    assert_eq!(d1.frac_digits, b("5"));
    let d2 = find("c");
    assert_eq!(d2.int_digits, b("0"));
    assert_eq!(d2.frac_digits, b("5"));
    let d3 = find("d");
    assert_eq!(d3.int_digits, b("5"));
    assert_eq!(d3.frac_digits, b(""));
}

#[test]
fn noise_lines_are_skipped() {
    let log = "Compiling pkg v0.1.0\nPASS [ 1s] a b\n   Summary 1 test run\nlowercase [ 1s] a b";
    let recs = unit_records_from_bytes(&b(log)).unwrap();
    assert_eq!(recs.len(), 1);
    assert_eq!(recs[0].name, b("b"));
}

#[test]
fn last_line_wins() {
    let log = "PASS [ 0.5s] ns t1\nFAIL [ 2.0s] ns t1";
    let recs = unit_records_from_bytes(&b(log)).unwrap();
    assert_eq!(recs.len(), 1);
    assert_eq!(recs[0].result, b("fail"));
    let d = recs[0].duration.as_ref().unwrap();
    assert_eq!(d.int_digits, b("2"));
    assert_eq!(d.frac_digits, b(""));
}

#[test]
fn malformed_duration_fails_whole_extraction() {
    let r = unit_records_from_bytes(&b("PASS [ 1.2.3s] a b"));
    assert_eq!(r.unwrap_err(), ParseFailure::MalformedDuration);
}

#[test]
fn units_sorted_by_duration_descending() {
    let log = "PASS [ 0.5s] ns a\nPASS [ 2s] ns b\nPASS [ 1.25s] ns c\nPASS [ 10s] ns d";
    let recs = unit_records_from_bytes(&b(log)).unwrap();
    let sorted = sort_units(recs);
    let names: Vec<Vec<u8>> = sorted.iter().map(|r| r.name.clone()).collect();
    assert_eq!(names, vec![b("d"), b("b"), b("c"), b("a")]);
}

#[test]
fn clippy_and_check_classification() {
    let lines = vec![
        message_json(
            Some("clippy::needless_return"),
            "warning",
            "unneeded return statement",
            &[span_json("src/main.rs", 3)],
        ),
        message_json(
            Some("E0308"),
            "error",
            "mismatched types",
            &[span_json("src/lib.rs", 7)],
        ),
    ];
    let stream = lines.join("\n");
    let recs = lint_records_from_bytes(&b(&stream), &b("ws")).unwrap();
    assert_eq!(recs.len(), 2);
    assert_eq!(recs[0].name, b("cargo-clippy"));
    assert_eq!(recs[0].code, b("clippy::needless_return"));
    assert_eq!(recs[0].severity, b("Warning"));
    assert_eq!(recs[0].path, b("ws/src/main.rs"));
    assert_eq!(recs[0].line, Some(3));
    assert_eq!(recs[0].position, None);
    assert_eq!(
        recs[0].description.as_ref().unwrap(),
        &b("unneeded return statement")
    );
    assert_eq!(recs[1].name, b("cargo-check"));
    assert_eq!(recs[1].severity, b("Error"));
}

#[test]
fn message_without_code_yields_no_record() {
    let lines = vec![
        message_json(None, "warning", "build noise", &[span_json("src/a.rs", 1)]),
        message_json(Some("E0001"), "error", "real", &[span_json("src/a.rs", 2)]),
    ];
    let recs = lint_records_from_bytes(&b(&lines.join("\n")), &b("")).unwrap();
    assert_eq!(recs.len(), 1);
    assert_eq!(recs[0].code, b("E0001"));
}

#[test]
fn identical_diagnostics_collapse() {
    let m = message_json(
        Some("clippy::x"),
        "warning",
        "dup",
        &[span_json("src/a.rs", 5)],
    );
    let stream = format!("{}\n{}", m, m);
    let recs = lint_records_from_bytes(&b(&stream), &b("")).unwrap();
    assert_eq!(recs.len(), 1);
}

#[test]
fn other_message_kinds_are_ignored() {
    let stream = format!(
        "{}\n{}",
        "{\"reason\":\"build-finished\",\"success\":true}",
        message_json(Some("E1"), "error", "x", &[span_json("a.rs", 1)])
    );
    let recs = lint_records_from_bytes(&b(&stream), &b("")).unwrap();
    assert_eq!(recs.len(), 1);
}

#[test]
fn undecodable_stream_is_an_error() {
    let bytes: Vec<u8> = vec![0xff, 0xfe, 0x80];
    let r = lint_records_from_bytes(&bytes, &b(""));
    assert_eq!(r.unwrap_err(), ParseFailure::MalformedStream);
}

#[test]
fn path_joining() {
    assert_eq!(join_path_exec(&b(""), &b("src/a.rs")), b("src/a.rs"));
    assert_eq!(join_path_exec(&b("ws"), &b("src/a.rs")), b("ws/src/a.rs"));
    assert_eq!(join_path_exec(&b("ws/"), &b("src/a.rs")), b("ws/src/a.rs"));
    assert_eq!(join_path_exec(&b("ws"), &b("/abs/a.rs")), b("/abs/a.rs"));
}

#[test]
fn extraction_is_idempotent() {
    let log = b("PASS [ 0.5s] ns a\nFAIL [ 2s] ns b");
    let lines = vec![
        message_json(Some("clippy::y"), "warning", "w", &[span_json("a.rs", 1)]),
    ];
    let stream = b(&lines.join("\n"));
    let one = build_report(
        Status::Fail,
        b("PHID-1"),
        b("t"),
        b("ws"),
        Some(stream.clone()),
        Some(log.clone()),
    );
    let two = build_report(
        Status::Fail,
        b("PHID-1"),
        b("t"),
        b("ws"),
        Some(stream),
        Some(log),
    );
    assert_eq!(one, two);
}

#[test]
fn failed_extraction_contributes_nothing() {
    let out = build_report(
        Status::Fail,
        b("PHID-2"),
        b("t"),
        b(""),
        Some(vec![0xff]),
        Some(b("PASS [ 1.2.3s] a b")),
    );
    let v: serde_json::Value = serde_json::from_slice(&out).unwrap();
    assert_eq!(v["type"], "fail");
    assert_eq!(v["unit"].as_array().unwrap().len(), 0);
    assert_eq!(v["lint"].as_array().unwrap().len(), 0);
}

#[test]
fn serialization_round_trip() {
    let full_unit = UnitRecord {
        name: b("t1"),
        result: b("pass"),
        namespace: Some(b("ns")),
        engine: Some(b("cargo-nextest")),
        duration: Some(Duration {
            int_digits: b("12"),
            frac_digits: b("5"),
        }),
        path: Some(b("src/t.rs")),
        coverage: Some(vec![CoverageEntry {
            key: b("file.rs"),
            value: b("covered"),
        }]),
        details: Some(b("detail text")),
        format: Some(b("text")),
    };
    let bare_unit = UnitRecord {
        name: b("t2"),
        result: b("fail"),
        namespace: None,
        engine: None,
        duration: None,
        path: None,
        coverage: None,
        details: None,
        format: None,
    };
    let lint = LintRecord {
        name: b("cargo-clippy"),
        code: b("clippy::z"),
        severity: b("Warning"),
        path: b("src/a.rs"),
        line: Some(9),
        position: None,
        description: Some(b("a \"quoted\"\\ message\nwith control\tchars")),
    };
    let payload = assemble_report(
        Status::Work,
        b("PHID-3"),
        b("tok"),
        Ok(vec![lint]),
        Ok(vec![full_unit, bare_unit]),
    );
    let out = render_payload(&payload);
    let v: serde_json::Value = serde_json::from_slice(&out).unwrap();
    assert_eq!(v["buildTargetPHID"], "PHID-3");
    assert_eq!(v["type"], "work");
    let units = v["unit"].as_array().unwrap();
    assert_eq!(units.len(), 2);
    let u0 = &units[0];
    assert_eq!(u0["name"], "t1");
    assert_eq!(u0["result"], "pass");
    assert_eq!(u0["namespace"], "ns");
    assert_eq!(u0["engine"], "cargo-nextest");
    assert_eq!(u0["duration"].as_f64().unwrap(), 12.5);
    assert_eq!(u0["path"], "src/t.rs");
    assert_eq!(u0["coverage"]["file.rs"], "covered");
    assert_eq!(u0["details"], "detail text");
    assert_eq!(u0["format"], "text");
    let u1 = &units[1];
    assert_eq!(u1["name"], "t2");
    assert_eq!(u1["result"], "fail");
    assert!(u1.get("namespace").is_none());
    assert!(u1.get("engine").is_none());
    assert!(u1.get("duration").is_none());
    assert!(u1.get("path").is_none());
    assert!(u1.get("coverage").is_none());
    assert!(u1.get("details").is_none());
    assert!(u1.get("format").is_none());
    let l0 = &v["lint"].as_array().unwrap()[0];
    assert_eq!(l0["name"], "cargo-clippy");
    assert_eq!(l0["code"], "clippy::z");
    assert_eq!(l0["severity"], "Warning");
    assert_eq!(l0["path"], "src/a.rs");
    assert_eq!(l0["line"], 9);
    assert!(l0.get("char").is_none());
    assert_eq!(l0["description"], "a \"quoted\"\\ message\nwith control\tchars");
    assert_eq!(v["__conduit__"]["token"], "tok");
}

#[test]
fn every_status_renders_its_word() {
    let cases = vec![
        (Status::Abort, "abort"),
        (Status::Fail, "fail"),
        (Status::Pass, "pass"),
        (Status::Pause, "pause"),
        (Status::Restart, "restart"),
        (Status::Resume, "resume"),
        (Status::Work, "work"),
    ];
    for (st, word) in cases {
        let payload = ReportPayload {
            build: b("PHID"),
            status: st,
            unit: Some(Vec::new()),
            lint: Some(Vec::new()),
            auth: AuthToken { token: b("t") },
        };
        let v: serde_json::Value = serde_json::from_slice(&render_payload(&payload)).unwrap();
        assert_eq!(v["type"], word);
    }
}

#[test]
fn missing_duration_sorts_as_zero() {
    let with = UnitRecord {
        name: b("timed"),
        result: b("pass"),
        namespace: None,
        engine: None,
        duration: Some(Duration {
            int_digits: b("0"),
            frac_digits: b("1"),
        }),
        path: None,
        coverage: None,
        details: None,
        format: None,
    };
    let without = UnitRecord {
        name: b("untimed"),
        result: b("pass"),
        namespace: None,
        engine: None,
        duration: None,
        path: None,
        coverage: None,
        details: None,
        format: None,
    };
    let sorted = sort_units(vec![without, with]);
    assert_eq!(sorted[0].name, b("timed"));
    assert_eq!(sorted[1].name, b("untimed"));
}

#[test]
fn crlf_line_endings_are_handled() {
    let recs = unit_records_from_bytes(&b("PASS [ 1s] a b\r\nFAIL [ 2s] a c\r\n")).unwrap();
    assert_eq!(recs.len(), 2);
    assert_eq!(recs[0].name, b("b"));
    assert_eq!(recs[1].name, b("c"));
}

#[test]
fn marker_anywhere_in_code_classifies_as_linter() {
    let m = message_json(Some("myclippyrule"), "warning", "w", &[span_json("a.rs", 1)]);
    let recs = lint_records_from_bytes(&b(&m), &b("")).unwrap();
    assert_eq!(recs[0].name, b("cargo-clippy"));
}
