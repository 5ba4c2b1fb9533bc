use canonic::config::{
    normalize_prefix, resolve_prefix, CanonicConfig, JiraSettings, PrefixError, DEFAULT_PREFIX,
};

#[test]
fn normalize_rejects_bad_prefixes() {
    assert!(normalize_prefix("").is_err());
    assert!(normalize_prefix("-x").is_err());
    assert!(normalize_prefix("X").is_err());
    assert!(normalize_prefix("has space").is_err());
    assert_eq!(normalize_prefix("resp").unwrap(), "resp");
    assert_eq!(normalize_prefix("team-a").unwrap(), "team-a");
}

#[test]
fn normalize_trims_and_names_each_error() {
    assert_eq!(normalize_prefix("  acme \n").unwrap(), "acme");
    assert_eq!(normalize_prefix("   "), Err(PrefixError::Empty));
    assert_eq!(normalize_prefix("x-"), Err(PrefixError::EdgeDash("x-".into())));
    assert_eq!(normalize_prefix("a_b"), Err(PrefixError::BadChars("a_b".into())));
    assert_eq!(
        PrefixError::BadChars("a_b".into()).message(),
        "prefix must be lowercase ascii letters, digits, or '-' (got `a_b`)"
    );
    assert_eq!(PrefixError::Empty.message(), "prefix must be non-empty");
    assert_eq!(
        PrefixError::EdgeDash("-x".into()).message(),
        "prefix must not start or end with '-' (got `-x`)"
    );
}

#[test]
fn resolve_cli_wins() {
    let cfg = CanonicConfig {
        prefix: "from-file".into(),
        ..Default::default()
    };
    assert_eq!(resolve_prefix(Some("cli"), &cfg).unwrap(), "cli");
}

#[test]
fn resolve_falls_back_to_config() {
    let cfg = CanonicConfig {
        prefix: " from-file ".into(),
        ..Default::default()
    };
    assert_eq!(resolve_prefix(None, &cfg).unwrap(), "from-file");
    assert_eq!(CanonicConfig::default().prefix, DEFAULT_PREFIX);
}

#[test]
fn validate_cleans_base_url_and_prefix() {
    let mut cfg = CanonicConfig::default();
    cfg.prefix = " acme ".into();
    cfg.jira.base_url = Some("  https://x.atlassian.net// ".into());
    let v = cfg.validate().unwrap();
    assert_eq!(v.prefix, "acme");
    assert_eq!(v.jira.base_url.as_deref(), Some("https://x.atlassian.net"));
    let mut blank = CanonicConfig::default();
    blank.jira.base_url = Some(" / ".into());
    assert_eq!(blank.validate().unwrap().jira.base_url, None);
    let mut bad = CanonicConfig::default();
    bad.prefix = "Bad".into();
    assert!(bad.validate().is_err());
}

#[test]
fn jira_settings_configured_rules() {
    let mut s = JiraSettings::default();
    assert!(!s.is_configured());
    s.base_url = Some("https://x".into());
    assert!(!s.is_configured());
    s.email = Some("a@b.c".into());
    assert!(!s.is_configured());
    s.api_token = Some("tok".into());
    assert!(s.is_configured());
    let h = JiraSettings {
        base_url: Some("https://x".into()),
        email: None,
        api_token: None,
        auth_header: Some("Bearer p".into()),
    };
    assert!(h.is_configured());
    let blank = JiraSettings {
        base_url: Some("  ".into()),
        email: None,
        api_token: None,
        auth_header: Some("Bearer p".into()),
    };
    assert!(!blank.is_configured());
}
