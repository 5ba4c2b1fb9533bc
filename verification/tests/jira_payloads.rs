use canonic::jira_import::{
    comment_body_to_text, created_comment_id, import_targets, issue_comments_url, myself_url,
    next_search_start, plain_text_to_adf, post_failure_text, posted_comment, prepare_comment_post,
    probe_failure_text, probe_identity, probe_result, search_url, server_info_url,
    CommentBodyFormat, IssueSummary, JiraAuth, JiraConfig, MyselfFields, PostError,
};
use canonic::json::JsonValue;

fn get<'a>(v: &'a JsonValue, key: &str) -> Option<&'a JsonValue> {
    match v {
        JsonValue::Object(m) => m.iter().find(|(k, _)| k == key).map(|(_, v)| v),
        _ => None,
    }
}

fn strings(v: &JsonValue, out: &mut Vec<String>) {
    match v {
        JsonValue::Str(s) => out.push(s.clone()),
        JsonValue::Array(items) => items.iter().for_each(|i| strings(i, out)),
        JsonValue::Object(m) => m.iter().for_each(|(_, v)| strings(v, out)),
        _ => {}
    }
}

fn s(x: &str) -> JsonValue {
    JsonValue::Str(x.to_string())
}

fn obj(entries: Vec<(&str, JsonValue)>) -> JsonValue {
    JsonValue::Object(entries.into_iter().map(|(k, v)| (k.to_string(), v)).collect())
}

#[test]
fn plain_text_to_adf_is_minimal_doc() {
    let adf = plain_text_to_adf("line one\n\nline two");
    assert!(matches!(get(&adf, "type"), Some(JsonValue::Str(t)) if t == "doc"));
    assert!(matches!(get(&adf, "version"), Some(JsonValue::Number(n)) if n == "1"));
    match get(&adf, "content") {
        Some(JsonValue::Array(items)) => assert!(items.len() >= 1),
        other => panic!("no content array: {other:?}"),
    }
    let mut texts = Vec::new();
    strings(&adf, &mut texts);
    assert!(texts.iter().any(|t| t.contains("line one")));
    assert!(texts.iter().any(|t| t.contains("line two")));
}

#[test]
fn comment_body_to_text_reads_wiki_string_and_adf() {
    let wiki = s("h1. Hello");
    assert_eq!(comment_body_to_text(&wiki), "h1. Hello");
    let adf = obj(vec![
        ("type", s("doc")),
        ("version", JsonValue::Number("1".into())),
        (
            "content",
            JsonValue::Array(vec![obj(vec![
                ("type", s("paragraph")),
                (
                    "content",
                    JsonValue::Array(vec![obj(vec![("type", s("text")), ("text", s("Hello ADF"))])]),
                ),
            ])]),
        ),
    ]);
    assert!(comment_body_to_text(&adf).contains("Hello ADF"));
}

#[test]
fn adf_written_reads_back_as_its_words() {
    let adf = plain_text_to_adf("first  line\n\n  second\tline  ");
    assert_eq!(comment_body_to_text(&adf), "first line second line");
    let adf = plain_text_to_adf("single");
    assert_eq!(comment_body_to_text(&adf), "single");
    let adf = plain_text_to_adf("   ");
    assert_eq!(comment_body_to_text(&adf), "");
    assert_eq!(comment_body_to_text(&JsonValue::Null), "null");
    assert_eq!(comment_body_to_text(&JsonValue::Bool(true)), "true");
}

#[test]
fn cloud_comment_post_uses_api3_and_adf() {
    let cfg = JiraConfig::new(
        "https://acme.atlassian.net".into(),
        JiraAuth::Basic { user: "a@b.c".into(), token: "t".into() },
    );
    let post = prepare_comment_post(&cfg, "HSP-1", "hello *world*", CommentBodyFormat::Auto).unwrap();
    assert!(post.url.ends_with("/rest/api/3/issue/HSP-1/comment"));
    assert_eq!(post.format, CommentBodyFormat::Adf);
    let body = get(&post.payload, "body").unwrap();
    assert!(matches!(get(body, "type"), Some(JsonValue::Str(t)) if t == "doc"));
    let mut texts = Vec::new();
    strings(body, &mut texts);
    assert!(texts.iter().any(|t| t.contains("hello")));
    assert!(texts.iter().any(|t| t.contains("world")));
}

#[test]
fn server_comment_post_uses_api2_and_wiki_string() {
    let cfg = JiraConfig::new("https://jira.example.org/".into(), JiraAuth::Header("Bearer pat".into()));
    let post = prepare_comment_post(&cfg, "HSP-101", "h1. Smoke\n\nBody *bold*.", CommentBodyFormat::Auto).unwrap();
    assert_eq!(post.url, "https://jira.example.org/rest/api/2/issue/HSP-101/comment");
    assert_eq!(post.format, CommentBodyFormat::Wiki);
    assert!(matches!(get(&post.payload, "body"), Some(JsonValue::Str(b)) if b == "h1. Smoke\n\nBody *bold*."));
    assert!(matches!(prepare_comment_post(&cfg, "  ", "x", CommentBodyFormat::Wiki), Err(PostError::EmptyIssueKey)));
    assert!(matches!(prepare_comment_post(&cfg, "HSP-1", " \n", CommentBodyFormat::Wiki), Err(PostError::EmptyBody)));
}

#[test]
fn endpoints_strip_trailing_slashes() {
    assert_eq!(search_url("https://x.atlassian.net//"), "https://x.atlassian.net/rest/api/2/search");
    assert_eq!(
        issue_comments_url("https://jira.example.org", "HSP-1"),
        "https://jira.example.org/rest/api/2/issue/HSP-1/comment"
    );
    assert_eq!(myself_url("https://e.atlassian.net/"), "https://e.atlassian.net/rest/api/2/myself");
    assert_eq!(server_info_url("http://h"), "http://h/rest/api/2/serverInfo");
}

#[test]
fn probe_identity_falls_back_in_order() {
    let me = MyselfFields {
        name: Some("advisor".into()),
        display_name: Some("Advisor User".into()),
        account_id: Some("abc-123".into()),
        email: Some("advisor@example.org".into()),
    };
    assert_eq!(probe_identity(&me), ("Advisor User".to_string(), "abc-123".to_string()));
    let bare = MyselfFields { name: None, display_name: None, account_id: None, email: Some("e@x".into()) };
    assert_eq!(probe_identity(&bare), ("e@x".to_string(), "e@x".to_string()));
    let none = MyselfFields { name: None, display_name: None, account_id: None, email: None };
    assert_eq!(probe_identity(&none), ("(unknown)".to_string(), "(unknown)".to_string()));
    let probe = probe_result("https://e.org//", &me, Some((Some("canonic-smoke".into()), None)));
    assert_eq!(probe.base_url, "https://e.org");
    assert_eq!(probe.server_title.as_deref(), Some("canonic-smoke"));
    assert_eq!(probe.server_version, None);
    assert!(probe_failure_text("401 Unauthorized").starts_with("Jira probe failed (auth or reachability): HTTP 401 Unauthorized on /rest/api/2/myself"));
}

#[test]
fn posting_outcomes() {
    assert_eq!(created_comment_id(&Some("30001".into())), "30001");
    assert_eq!(created_comment_id(&Some(String::new())), "(unknown)");
    assert_eq!(created_comment_id(&None), "(unknown)");
    let p = posted_comment("HSP-1", &Some("7".into()), "body");
    assert_eq!((p.issue_key.as_str(), p.comment_id.as_str(), p.body_wiki.as_str()), ("HSP-1", "7", "body"));
    assert_eq!(
        post_failure_text("HSP-1", "400 Bad Request", CommentBodyFormat::Adf, ""),
        "posting comment on HSP-1 failed: HTTP 400 Bad Request (format=Adf)"
    );
    assert_eq!(
        post_failure_text("HSP-1", "500", CommentBodyFormat::Wiki, "oops"),
        "posting comment on HSP-1 failed: HTTP 500 (format=Wiki) — oops"
    );
}

#[test]
fn search_pagination_and_import_targets() {
    assert_eq!(next_search_start(0, 50, 120), Some(50));
    assert_eq!(next_search_start(100, 20, 120), None);
    assert_eq!(next_search_start(0, 0, 10), None);
    let issues = vec![IssueSummary { key: "HSP-101".into(), summary: "Project space: not a backup!".into() }];
    let t = import_targets("corpus/imports", &issues);
    assert_eq!(t, vec![(
        "resp-project-space-not-a-backup-hsp-101".to_string(),
        "corpus/imports/resp-project-space-not-a-backup-hsp-101.md".to_string(),
    )]);
}

#[test]
fn parses_myself_for_probe() {
    let me = MyselfFields {
        name: Some("advisor".into()),
        display_name: Some("Advisor User".into()),
        account_id: Some("abc-123".into()),
        email: Some("advisor@example.org".into()),
    };
    let (display, account) = probe_identity(&me);
    assert_eq!(display, "Advisor User");
    assert_eq!(account, "abc-123");
}
