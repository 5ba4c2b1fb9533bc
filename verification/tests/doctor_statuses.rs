use canonic::doctor::{
    collect_statuses_from, critical_missing, format_doctor, harper_cli_status, jira_status,
    pandoc_status, JiraCheck,
};
use canonic::jira_import::CommentBodyFormat;

#[test]
fn statuses_in_fixed_order() {
    let statuses = collect_statuses_from(
        true,
        Some("pandoc 3.1.9".into()),
        false,
        Some("harper-cli"),
        true,
        "0.1",
        JiraCheck::Unset,
    );
    let names: Vec<_> = statuses.iter().map(|s| s.name.as_str()).collect();
    assert_eq!(names, vec!["pandoc", "vale", "harper-cli", "harper-core", "jira"]);
    assert!(critical_missing(&statuses).is_empty());
    let text = format_doctor(&statuses);
    assert!(text.starts_with("canonic doctor\npandoc: ok — pandoc 3.1.9\nvale: MISSING — not installed or not on PATH (optional; style lint skipped when missing)\n"));
    assert!(text.contains("harper-cli: ok — harper-cli present on PATH (optional CLI fallback)\n"));
    assert!(text.contains("harper-core: ok — in-process grammar engine linked (v0.1)\n"));
    assert!(text.ends_with("jira: MISSING — JIRA_BASE_URL unset (optional; set for jira-probe / import-jira / jira-comment)\n"));
}

#[test]
fn only_missing_pandoc_is_critical() {
    let statuses = collect_statuses_from(false, None, false, None, false, "", JiraCheck::ProbeFailed("x".into()));
    let crit = critical_missing(&statuses);
    assert_eq!(crit.len(), 1);
    assert_eq!(crit[0].name, "pandoc");
    assert_eq!(pandoc_status(true, None).detail, "present on PATH");
    assert_eq!(harper_cli_status(None).detail, "no harper-cli/harper/harperls on PATH (optional; in-process harper-core still used)");
}

#[test]
fn jira_check_lines() {
    let ok = jira_status(JiraCheck::Answered { display_name: "Ann".into(), format: CommentBodyFormat::Adf });
    assert!(ok.present);
    assert_eq!(ok.detail, "ok free platform REST — Ann (ADF/v3; no Marketplace apps)");
    let inc = jira_status(JiraCheck::Incomplete("no token".into()));
    assert_eq!(inc.detail, "Jira env incomplete: no token");
    assert!(!inc.present);
}
