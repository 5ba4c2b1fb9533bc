use canonic::lint::{
    format_report, harper_command_args, lint_paths, vale_command_args, LintAction, LintEngine,
    LintEvent, LintReport,
};

#[test]
fn vale_args_include_json_and_paths() {
    let paths = vec!["corpus/responses/a.md".to_string()];
    let args = vale_command_args(&paths);
    assert!(args.iter().any(|a| a.contains("JSON")));
    assert!(args.iter().any(|a| a.ends_with("a.md")));
}

#[test]
fn harper_args_pass_paths() {
    let paths = vec!["x.md".to_string(), "y.md".to_string()];
    let args = harper_command_args(&paths);
    assert_eq!(args.len(), 2);
    assert_eq!(args[0], "x.md");
}

#[test]
fn missing_vale_still_explicit_when_all() {
    let paths = vec!["Cargo.toml".to_string()];
    let mut run = lint_paths(&paths, LintEngine::All).unwrap();
    // Vale is absent here; the in-process engine finds nothing; no CLI.
    assert_eq!(run.next, LintAction::ProbeVale);
    assert_eq!(run.step(LintEvent::ValeProbed(false)), LintAction::RunHarperCore);
    assert_eq!(
        run.step(LintEvent::HarperCoreRan(Ok(vec![]))),
        LintAction::FindHarperCli
    );
    assert_eq!(run.step(LintEvent::HarperCliFound(None)), LintAction::Finish);
    let report = run.report;
    // harper-core always runs
    assert!(
        report.ran.iter().any(|r| r == "harper-core"),
        "ran={:?}",
        report.ran
    );
    // If vale missing, message is explicit
    for m in &report.missing {
        assert!(
            m.contains("not installed") || m.contains("PATH"),
            "missing message should be explicit: {m}"
        );
    }
}

#[test]
fn format_report_mentions_missing() {
    let report = LintReport {
        findings: vec![],
        ran: vec![],
        missing: vec!["vale is not installed or not on PATH; install Vale".into()],
    };
    let s = format_report(&report);
    assert!(s.contains("MISSING:"));
    assert!(s.contains("vale"));
}
