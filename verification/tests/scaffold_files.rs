use canonic::check::check_responses;
use canonic::config::DEFAULT_PREFIX;
use canonic::corpus::parse_response;
use canonic::scaffold::{
    promote_plan, promote_write_check, resolve_response_id, scaffold_file, scaffold_markdown,
    scaffold_write_check, ScaffoldError, ScaffoldOptions,
};

#[test]
fn scaffold_markdown_is_check_clean() {
    let opts = ScaffoldOptions {
        title: "Project space is not a backup".into(),
        id: None,
        sop: "none".into(),
        tags: vec!["storage".into()],
        body: Some("Shared project storage is for active working data, not long-term backup.".into()),
    };
    let md = scaffold_markdown(&opts).unwrap();
    assert!(md.contains("prefix: resp"));
    assert!(md.contains("id: resp-project-space-is-not-a-backup"));
    assert!(md.contains("Support Team"));
    let path = "tmp/resp-project-space-is-not-a-backup.md";
    let doc = parse_response(path, &md);
    let report = check_responses(&[doc], DEFAULT_PREFIX);
    assert!(report.ok(), "{:?}", report.findings.iter().map(|f| f.code.clone()).collect::<Vec<_>>());
}

#[test]
fn write_scaffold_and_check_path() {
    let opts = ScaffoldOptions {
        title: "Queue limits".into(),
        id: Some("resp-queue-limits".into()),
        sop: "none".into(),
        tags: vec![],
        body: Some("Use the documented partition limits.".into()),
    };
    let (path, text) = scaffold_file("tmp", &opts).unwrap();
    assert!(path.ends_with("resp-queue-limits.md"));
    let report = check_responses(&[parse_response(&path, &text)], DEFAULT_PREFIX);
    assert!(report.ok(), "{:?}", report.findings.iter().map(|f| f.code.clone()).collect::<Vec<_>>());
}

#[test]
fn promote_rejects_dirty_draft() {
    let src = "tmp/password-reset.md";
    let doc = parse_response(src, "# no front matter\n\nRegards,\nAlice\n");
    let err = promote_plan(&doc, "tmp/out").unwrap_err();
    assert!(err.contains("quality check failed") || err.contains("refuse"), "{err}");
}

#[test]
fn promote_copies_clean_draft() {
    let opts = ScaffoldOptions {
        title: "Module environments".into(),
        id: Some("resp-module-environments".into()),
        sop: "none".into(),
        tags: vec!["software".into()],
        body: Some("Load the module system before running jobs.".into()),
    };
    let (src, text) = scaffold_file("tmp/imports", &opts).unwrap();
    let doc = parse_response(&src, &text);
    let dest = promote_plan(&doc, "tmp/responses").unwrap();
    assert_eq!(dest, "tmp/responses/resp-module-environments.md");
    assert!(check_responses(&[parse_response(&dest, &text)], DEFAULT_PREFIX).ok());
}

#[test]
fn scaffold_text_is_exact() {
    let opts = ScaffoldOptions {
        title: "  Queue limits ".into(),
        id: None,
        sop: " none ".into(),
        tags: vec![" a ".into(), "".into(), "b".into()],
        body: None,
    };
    assert_eq!(
        scaffold_markdown(&opts).unwrap(),
        "---\nid: resp-queue-limits\ntitle: Queue limits\nprefix: resp\ntags: [a, b]\nsop: none\n---\n\n# Queue limits\n\nHello,\n\nReplace this paragraph with the shared team answer. Keep the team sign-off below.\n\nRegards,\nSupport Team\n"
    );
}

fn with(title: &str, id: Option<&str>, sop: &str) -> ScaffoldOptions {
    ScaffoldOptions {
        title: title.to_string(),
        id: id.map(|i| i.to_string()),
        sop: sop.to_string(),
        tags: vec![],
        body: None,
    }
}

#[test]
fn scaffold_errors_and_messages() {
    assert_eq!(resolve_response_id(&with("x", Some("  "), "none")), Err(ScaffoldError::EmptyId));
    assert_eq!(
        resolve_response_id(&with("x", Some("personal-foo"), "none")),
        Err(ScaffoldError::BadPrefix("personal-foo".into()))
    );
    assert_eq!(
        resolve_response_id(&with("x", Some("resp-a b"), "none")),
        Err(ScaffoldError::UnsafeId("resp-a b".into()))
    );
    assert_eq!(resolve_response_id(&with("???", None, "none")), Ok("resp-topic".to_string()));
    assert_eq!(scaffold_markdown(&with(" ", None, "none")), Err(ScaffoldError::EmptyTitle));
    assert_eq!(scaffold_markdown(&with("T", None, " ")), Err(ScaffoldError::EmptySop));
    // The file form resolves the id before it looks at the title.
    assert_eq!(
        scaffold_file("d", &with(" ", Some("bad"), "none")),
        Err(ScaffoldError::BadPrefix("bad".into()))
    );
    assert_eq!(ScaffoldError::EmptyId.message(), "response id is empty");
    assert_eq!(
        ScaffoldError::BadPrefix("x".into()).message(),
        "id must start with `resp-` (got `x`); pass --id or a title that slugifies cleanly"
    );
    assert_eq!(
        ScaffoldError::UnsafeId("resp-?".into()).message(),
        "id `resp-?` contains characters that are not safe for a markdown filename stem"
    );
    assert_eq!(ScaffoldError::EmptyTitle.message(), "title must be non-empty");
    assert_eq!(
        ScaffoldError::EmptySop.message(),
        "sop must be non-empty (use the literal `none` if there is no SOP URL)"
    );
}

#[test]
fn promote_refusal_lists_findings() {
    let doc = parse_response("d/password-reset.md", "---\nid: password-reset\n---\n\nBody\n");
    assert_eq!(
        promote_plan(&doc, "out").unwrap_err(),
        "refuse to promote d/password-reset.md: quality check failed (3 finding(s)):\n  [id-prefix] id must start with `resp-` (shared library prefix from canonic.toml / --prefix); got `password-reset`\n  [prefix-field] front matter `prefix: resp` is required\n  [sop-field] front matter `sop` is required (Confluence URL or the literal `none`)\nEdit the draft until `canonic check --corpus <dir>` is clean, then promote again."
    );
    let clean = parse_response("d/resp-ok.md", "---\nid: resp-ok\ntitle: Ok\nprefix: resp\nsop: none\n---\n\nFine.\n");
    assert_eq!(promote_plan(&clean, "/abs/dir/").unwrap(), "/abs/dir/resp-ok.md");
    assert_eq!(promote_plan(&clean, "").unwrap(), "resp-ok.md");
}

#[test]
fn overwrite_needs_force() {
    assert_eq!(scaffold_write_check("d/resp-a.md", false, false), Ok(()));
    assert_eq!(scaffold_write_check("d/resp-a.md", true, true), Ok(()));
    assert_eq!(
        scaffold_write_check("d/resp-a.md", true, false),
        Err("refusing to overwrite d/resp-a.md (pass --force to replace)".to_string())
    );
    assert_eq!(promote_write_check("c/resp-a.md", false, true), Ok(()));
    assert_eq!(
        promote_write_check("c/resp-a.md", true, false),
        Err("refusing to overwrite published response c/resp-a.md (pass --force to replace)".to_string())
    );
}
