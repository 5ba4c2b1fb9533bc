use canonic::jira_import::{
    draft_markdown, format_probe, is_cloud_host, slugify, CommentBodyFormat, JiraProbe,
};

#[test]
fn slugify_collapses_punctuation_and_case() {
    assert_eq!(
        slugify("Project space is not a backup!"),
        "project-space-is-not-a-backup"
    );
    assert_eq!(slugify("  ---  "), "topic");
    assert_eq!(slugify("SBU / GPU-hours (2026)"), "sbu-gpu-hours-2026");
}

#[test]
fn draft_markdown_has_required_front_matter_and_sections() {
    let text = draft_markdown(
        "resp-example-hsp-1",
        "HSP-1",
        "Example topic",
        &[(
            "Fred F. User".into(),
            "2026-07-06T18:30:00.000+0000".into(),
            "Use **self-service** for backups.".into(),
        )],
    );
    assert!(text.contains("id: resp-example-hsp-1"));
    assert!(text.contains("prefix: resp"));
    assert!(text.contains("sop: none"));
    assert!(text.contains("imported from HSP-1"));
    assert!(text.contains("## Comment by Fred F. User"));
    assert!(text.contains("self-service"));
}

#[test]
fn format_probe_mentions_free_rest() {
    let text = format_probe(&JiraProbe {
        base_url: "https://example.atlassian.net".into(),
        display_name: "Advisor User".into(),
        account: "abc-123".into(),
        server_title: Some("canonic-smoke".into()),
        server_version: Some("9.12.15".into()),
    });
    assert!(text.contains("free REST"));
    assert!(text.contains("Advisor User"));
    assert!(text.contains("Marketplace") || text.contains("no Marketplace"));
    assert!(text.contains("https://example.atlassian.net"));
}

#[test]
fn cloud_host_detection() {
    assert!(is_cloud_host("https://acme.atlassian.net"));
    assert!(!is_cloud_host("https://jira.example.org"));
    assert_eq!(
        CommentBodyFormat::Auto.resolve("https://x.atlassian.net"),
        CommentBodyFormat::Adf
    );
    assert_eq!(
        CommentBodyFormat::Auto.resolve("http://localhost:8080"),
        CommentBodyFormat::Wiki
    );
}

#[test]
fn cloud_host_is_decided_by_the_host_only() {
    assert!(!is_cloud_host("https://acme.jira.com"));
    assert!(!is_cloud_host("https://jira.example.org/atlassian.net/browse"));
    assert!(!is_cloud_host("https://atlassian.net.example.org"));
    assert!(is_cloud_host("HTTPS://Acme.Atlassian.NET:443/"));
    assert!(is_cloud_host("https://bot@acme.atlassian.net/jira"));
    assert!(is_cloud_host("acme.atlassian.net"));
    assert_eq!(
        CommentBodyFormat::Auto.resolve("https://acme.jira.com"),
        CommentBodyFormat::Wiki
    );
    assert_eq!(
        CommentBodyFormat::Wiki.resolve("https://acme.atlassian.net"),
        CommentBodyFormat::Wiki
    );
}

#[test]
fn slugify_is_idempotent_on_ascii_titles() {
    for title in ["Project space is not a backup!", "  ---  ", "SBU / GPU-hours (2026)", "A--B"] {
        let once = slugify(title);
        assert!(!once.chars().any(|c| c.is_ascii_uppercase()));
        assert_eq!(slugify(&once), once);
    }
}

#[test]
fn slug_is_the_alphanumeric_runs_joined() {
    assert_eq!(slugify("Ä b--C9 !x"), "b-c9-x");
    assert_eq!(slugify("éé"), "topic");
}
