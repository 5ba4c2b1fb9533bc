use canonic::json::JsonValue;
use canonic::lint::{
    format_report, harper_binary_name, harper_candidates, harper_cli_findings, harper_core_available,
    lint_paths, probe_answered, prose_paragraphs, vale_findings, vale_output, LintAction, LintEngine, LintError,
    LintEvent, LintFinding,
};

fn s(x: &str) -> JsonValue {
    JsonValue::Str(x.to_string())
}

fn alert(entries: Vec<(&str, JsonValue)>) -> JsonValue {
    JsonValue::Object(entries.into_iter().map(|(k, v)| (k.to_string(), v)).collect())
}

fn view(f: &LintFinding) -> (&str, &str, &str, &str, Option<u32>) {
    (f.engine.as_str(), f.path.as_str(), f.message.as_str(), f.severity.as_str(), f.line)
}

#[test]
fn vale_json_alerts_become_findings() {
    let parsed = Some(vec![
        (
            "a.md".to_string(),
            JsonValue::Array(vec![
                alert(vec![("Message", s("Avoid 'very'")), ("Severity", s("warning")), ("Line", JsonValue::Number("3".into()))]),
                alert(vec![("message", s("lower keys")), ("line", JsonValue::Number("4294967297".into()))]),
                alert(vec![("Message", JsonValue::Number("1".into())), ("message", s("ignored")), ("Line", JsonValue::Number("2.5".into()))]),
            ]),
        ),
        ("b.md".to_string(), JsonValue::Null),
    ]);
    let fs = vale_findings(&parsed, "", "", true, &["a.md".to_string()]);
    let got: Vec<_> = fs.iter().map(view).collect();
    assert_eq!(
        got,
        vec![
            ("vale", "a.md", "Avoid 'very'", "warning", Some(3)),
            ("vale", "a.md", "lower keys", "suggestion", Some(1)),
            ("vale", "a.md", "vale alert", "suggestion", None),
        ]
    );
}

#[test]
fn vale_text_output_on_failure() {
    let fs = vale_findings(&None, "E100 bad config\n\n", "  \ntrace\r\n", false, &["x.md".into(), "y.md".into()]);
    let got: Vec<_> = fs.iter().map(view).collect();
    assert_eq!(
        got,
        vec![
            ("vale", "x.md", "E100 bad config", "info", None),
            ("vale", "x.md", "trace", "info", None),
        ]
    );
    assert!(vale_findings(&None, "noise", "", true, &[]).is_empty());
    assert!(vale_findings(&None, " \n", "", false, &[]).is_empty());
}

#[test]
fn harper_cli_output_lines() {
    let fs = harper_cli_findings("harper-cli", "  line ERROR here  \nok\n", "", true, &[]);
    let got: Vec<_> = fs.iter().map(view).collect();
    assert_eq!(
        got,
        vec![
            ("harper-cli", "", "line ERROR here", "suggestion", None),
            ("harper-cli", "", "ok", "suggestion", None),
        ]
    );
    assert!(harper_cli_findings("harper", "all fine", "", true, &[]).is_empty());
    assert_eq!(harper_cli_findings("harper", "x", "", false, &["p.md".into()]).len(), 1);
}

#[test]
fn probe_answers() {
    assert!(probe_answered("vale", true, true, ""));
    assert!(probe_answered("vale", false, false, ""));
    assert!(probe_answered("vale", false, true, "usage: VALE [options]"));
    assert!(!probe_answered("vale", false, true, "command not found"));
}

#[test]
fn harper_names_and_core() {
    assert!(harper_core_available());
    assert_eq!(harper_candidates(), ["harper-cli", "harper", "harperls"]);
    assert_eq!(harper_binary_name([false, true, true]), Some("harper"));
    assert_eq!(harper_binary_name([false, false, false]), None);
}

#[test]
fn lint_run_without_paths_is_refused() {
    match lint_paths(&[], LintEngine::All) {
        Err(e) => {
            assert_eq!(e, LintError::NoPaths);
            assert_eq!(e.message(), "no paths to lint");
        }
        Ok(_) => panic!("expected refusal"),
    }
}

#[test]
fn lint_run_records_engines_and_failures() {
    let paths = vec!["a.md".to_string()];
    let mut run = lint_paths(&paths, LintEngine::All).unwrap();
    assert_eq!(run.step(LintEvent::ValeProbed(true)), LintAction::RunVale);
    assert_eq!(run.step(LintEvent::ValeRan(Err("spawn failed".into()))), LintAction::RunHarperCore);
    // An event that does not answer the awaited work changes nothing.
    assert_eq!(run.step(LintEvent::ValeProbed(false)), LintAction::RunHarperCore);
    assert_eq!(run.step(LintEvent::HarperCoreRan(Ok(vec![]))), LintAction::FindHarperCli);
    assert_eq!(
        run.step(LintEvent::HarperCliFound(Some("harper".into()))),
        LintAction::RunHarperCli("harper".into())
    );
    assert_eq!(run.step(LintEvent::HarperCliRan(Ok(vec![]))), LintAction::Finish);
    assert_eq!(run.report.ran, vec!["vale", "harper-core", "harper"]);
    assert!(run.report.missing.is_empty());
    assert_eq!(run.report.findings.len(), 1);
    assert_eq!(run.report.findings[0].message, "vale invocation failed: spawn failed");
    let text = format_report(&run.report);
    assert!(text.starts_with("lint: 1 finding(s); ran=[\"vale\", \"harper-core\", \"harper\"]; missing=[]\n"));
    assert!(text.contains("[vale] : vale invocation failed: spawn failed (error)\n"));
}

#[test]
fn vale_only_run_skips_harper() {
    let paths = vec!["a.md".to_string()];
    let mut run = lint_paths(&paths, LintEngine::Vale).unwrap();
    assert_eq!(run.step(LintEvent::ValeProbed(false)), LintAction::Finish);
    assert!(run.report.ran.is_empty());
    assert_eq!(run.report.missing.len(), 1);
    let mut harper = lint_paths(&paths, LintEngine::Harper).unwrap();
    assert_eq!(harper.next, LintAction::RunHarperCore);
}

#[test]
fn prose_paragraphs_skip_markup() {
    let text = "---\nid: x\n---\n\n# Title\n\nFirst line\ncontinues here.\n\n```\ncode\n```\n- item one\n1. numbered\n| table |\n";
    let ps = prose_paragraphs(text);
    assert_eq!(
        ps,
        vec![
            (7, "First line continues here.".to_string()),
            (13, "item one numbered".to_string()),
        ]
    );
}

#[test]
fn vale_output_reads_printed_json() {
    let stdout = r#"{"a.md": [{"Message": "Avoid 'very'", "Severity": "warning", "Line": 3}], "b.md": []}"#;
    let fs = vale_output(stdout, "", true, &["a.md".to_string()]);
    let got: Vec<_> = fs.iter().map(view).collect();
    assert_eq!(got, vec![("vale", "a.md", "Avoid 'very'", "warning", Some(3))]);
    let fs = vale_output("not json\n", "", false, &["x.md".to_string()]);
    let got: Vec<_> = fs.iter().map(view).collect();
    assert_eq!(got, vec![("vale", "x.md", "not json", "info", None)]);
    assert!(vale_output("[1, 2]", "", true, &["x.md".to_string()]).is_empty());
}
