use canonic::check::{check_doc, check_responses, format_check_report, CheckReport};
use canonic::config::DEFAULT_PREFIX;
use canonic::corpus::CannedResponse;

fn doc(id: &str, prefix: Option<&str>, sop: Option<&str>, content: &str) -> CannedResponse {
    CannedResponse {
        id: id.into(),
        title: "Title".into(),
        prefix: prefix.map(str::to_string),
        sop: sop.map(str::to_string),
        body: content.into(),
        content: content.into(),
        path: format!("{id}.md"),
        tags: vec![],
    }
}

fn codes(r: &CheckReport) -> Vec<String> {
    r.findings.iter().map(|f| f.code.clone()).collect()
}

#[test]
fn accepts_well_formed_response() {
    let d = doc(
        "resp-project-space-not-backup",
        Some(DEFAULT_PREFIX),
        Some("none"),
        "Hello,\n\nBody.\n\nRegards,\nSupport Team\n",
    );
    let r = check_responses(&[d], DEFAULT_PREFIX);
    assert!(r.ok(), "{:?}", r.findings);
}

#[test]
fn honors_custom_prefix() {
    let d = doc(
        "acme-topic",
        Some("acme"),
        Some("none"),
        "Hello,\n\nBody.\n\nRegards,\nSupport Team\n",
    );
    let r = check_responses(&[d], "acme");
    assert!(r.ok(), "{:?}", r.findings);
}

#[test]
fn rejects_missing_prefix_and_bad_id() {
    let d = doc("password-reset", None, None, "Body\n");
    let r = check_responses(&[d], DEFAULT_PREFIX);
    let codes = codes(&r);
    assert!(codes.contains(&"id-prefix".to_string()), "{codes:?}");
    assert!(codes.contains(&"prefix-field".to_string()), "{codes:?}");
    assert!(codes.contains(&"sop-field".to_string()), "{codes:?}");
}

#[test]
fn rejects_personal_signoff_name_after_regards() {
    let d = doc(
        "resp-foo",
        Some(DEFAULT_PREFIX),
        Some("none"),
        "Hello.\n\nRegards,\nAlice\n",
    );
    let r = check_responses(&[d], DEFAULT_PREFIX);
    assert!(
        r.findings.iter().any(|f| f.code == "personal-signature"),
        "{:?}",
        r.findings
    );
}

#[test]
fn rejects_duplicate_ids() {
    let a = doc(
        "resp-a",
        Some(DEFAULT_PREFIX),
        Some("none"),
        "x\n\nRegards,\nSupport Team\n",
    );
    let mut b = a.clone();
    b.path = "other/resp-a.md".to_string();
    let r = check_responses(&[a, b], DEFAULT_PREFIX);
    assert!(r.findings.iter().any(|f| f.code == "duplicate-id"));
}

#[test]
fn duplicate_finding_names_the_earlier_path() {
    let a = doc("resp-a", Some("resp"), Some("none"), "x\n");
    let mut b = a.clone();
    b.path = "other/resp-a.md".to_string();
    let r = check_responses(&[a, b], "resp");
    let dup: Vec<_> = r.findings.iter().filter(|f| f.code == "duplicate-id").collect();
    assert_eq!(dup.len(), 1);
    assert_eq!(dup[0].path, "other/resp-a.md");
    assert_eq!(dup[0].message, "id `resp-a` also used by resp-a.md");
    assert_eq!(r.checked, 2);
}

#[test]
fn exact_messages_for_each_rule() {
    let mut d = doc("other-x", Some("acme"), Some("   "), "fine\n");
    d.path = "dir/wrong-name.md".to_string();
    d.title = "  ".to_string();
    let r = check_responses(&[d], "resp");
    let got: Vec<(String, String)> = r
        .findings
        .iter()
        .map(|f| (f.code.clone(), f.message.clone()))
        .collect();
    assert_eq!(
        got,
        vec![
            (
                "id-prefix".to_string(),
                "id must start with `resp-` (shared library prefix from canonic.toml / --prefix); got `other-x`".to_string()
            ),
            (
                "id-filename".to_string(),
                "filename stem `wrong-name` must equal id `other-x`".to_string()
            ),
            (
                "prefix-field".to_string(),
                "front matter `prefix` must be `resp`; got `acme`".to_string()
            ),
            (
                "sop-field".to_string(),
                "front matter `sop` is required (Confluence URL or the literal `none`)".to_string()
            ),
            ("title".to_string(), "title must be non-empty".to_string()),
        ]
    );
}

#[test]
fn regards_followed_by_team_is_fine_but_name_is_not() {
    let ok = doc("resp-a", Some("resp"), Some("none"), "Hi\n\nregards\nThe Support Team\n");
    assert!(check_responses(&[ok], "resp").ok());
    let bad = doc("resp-a", Some("resp"), Some("none"), "Hi\n\nREGARDS,\nMary-Ann Smith\n");
    let r = check_responses(&[bad], "resp");
    assert_eq!(r.findings.len(), 1);
    assert_eq!(
        r.findings[0].message,
        "possible personal sign-off; use shared team closing (Regards followed by personal name instead of team)"
    );
    let three_words = doc("resp-a", Some("resp"), Some("none"), "Hi\n\nRegards,\nMary Ann Smith\n");
    assert!(check_responses(&[three_words], "resp").ok());
}

#[test]
fn signature_pattern_catches_cheers_and_dash_names() {
    let cheers = doc("resp-a", Some("resp"), Some("none"), "Body\n\nCheers\n");
    let r = check_responses(&[cheers], "resp");
    assert_eq!(r.findings.len(), 1);
    assert_eq!(
        r.findings[0].message,
        "possible personal sign-off; use shared team closing (matched personal closing/name pattern)"
    );
    let dash = doc("resp-a", Some("resp"), Some("none"), "Body\n\n- Alex\n");
    assert_eq!(check_responses(&[dash], "resp").findings.len(), 1);
}

#[test]
fn report_text_lists_findings_or_passes() {
    let clean = check_responses(
        &[doc("resp-a", Some("resp"), Some("none"), "Body\n")],
        "resp",
    );
    assert_eq!(
        format_check_report(&clean),
        "check: 1 file(s), 0 finding(s)\nAll quality checks passed.\n"
    );
    let dirty = check_responses(&[doc("resp-a", Some("resp"), None, "Body\n")], "resp");
    assert_eq!(dirty.summary_line(), "check: 1 file(s), 1 finding(s)");
    assert_eq!(
        format_check_report(&dirty),
        "check: 1 file(s), 1 finding(s)\n[sop-field] resp-a.md (resp-a): front matter `sop` is required (Confluence URL or the literal `none`)\n"
    );
}

#[test]
fn empty_corpus_checks_nothing() {
    let r = check_responses(&[], "resp");
    assert!(r.ok());
    assert_eq!(r.checked, 0);
    assert_eq!(r.summary_line(), "check: 0 file(s), 0 finding(s)");
}

#[test]
fn every_rule_reports_once_in_order() {
    let mut d = doc("topic", Some("other"), Some("  "), "Hello,\n\nCheers\n");
    d.title = "   ".into();
    d.path = "corpus/responses/elsewhere.md".into();
    let r = check_doc(&d, DEFAULT_PREFIX);
    assert_eq!(
        codes(&r),
        vec!["id-prefix", "id-filename", "prefix-field", "sop-field", "title", "personal-signature"]
    );
    assert!(r.findings.iter().all(|f| f.id == "topic" && f.path == "corpus/responses/elsewhere.md"));
}
