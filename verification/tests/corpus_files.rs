use canonic::check::{check_doc, check_responses};
use canonic::config::DEFAULT_PREFIX;
use canonic::corpus::{is_markdown_path, list_line, parse_response, sort_by_id};

#[test]
fn load_parses_front_matter_and_body() {
    let text = "---\nid: sample-id\ntitle: Sample Title\ntags: [a, b]\n---\n\n# Heading\n\nBody text.\n\n";
    let r = parse_response("tmp/sample.md", text);
    assert_eq!(r.id, "sample-id");
    assert_eq!(r.title, "Sample Title");
    assert_eq!(r.tags, vec!["a", "b"]);
    assert!(r.content.contains("Body text"));
    assert!(!r.content.contains("sample-id"));
}

#[test]
fn walk_finds_markdown_files() {
    let files = [
        ("tmp/one.md", "# One\n\nalpha\n"),
        ("tmp/two.md", "# Two\n\nbeta\n"),
        ("tmp/skip.txt", "nope"),
    ];
    let docs: Vec<_> = files
        .iter()
        .filter(|(p, _)| is_markdown_path(p))
        .map(|(p, t)| parse_response(p, t))
        .collect();
    let docs = sort_by_id(docs);
    assert_eq!(docs.len(), 2);
    assert_eq!(docs[0].id, "one");
    assert_eq!(docs[1].id, "two");
}

#[test]
fn markdown_paths_by_extension() {
    assert!(is_markdown_path("a/b/resp-x.md"));
    assert!(is_markdown_path("resp-x.md/"));
    assert!(is_markdown_path(".hidden.md"));
    assert!(!is_markdown_path(".md"));
    assert!(!is_markdown_path("notes.markdown"));
    assert!(!is_markdown_path("a/.."));
    assert!(!is_markdown_path(""));
}

#[test]
fn sort_by_id_is_stable_and_by_code_point() {
    let a1 = parse_response("x/first.md", "---\nid: b\n---\n");
    let a2 = parse_response("x/second.md", "---\nid: b\n---\n");
    let c = parse_response("x/c.md", "---\nid: B\n---\n");
    let d = parse_response("x/d.md", "---\nid: ab\n---\n");
    let sorted = sort_by_id(vec![a1, c, d, a2]);
    let got: Vec<(&str, &str)> = sorted.iter().map(|r| (r.id.as_str(), r.path.as_str())).collect();
    assert_eq!(
        got,
        vec![("B", "x/c.md"), ("ab", "x/d.md"), ("b", "x/first.md"), ("b", "x/second.md")]
    );
}

#[test]
fn missing_front_matter_falls_back_to_stem_and_heading() {
    let r = parse_response("dir/resp-x.md", "# Heading here\n\nText\n");
    assert_eq!(r.id, "resp-x");
    assert_eq!(r.title, "Heading here");
    assert_eq!(r.prefix, None);
    assert_eq!(r.content, "# Heading here\n\nText\n");
    let report = check_doc(&r, DEFAULT_PREFIX);
    assert_eq!(report.checked, 1);
    let codes: Vec<_> = report.findings.iter().map(|f| f.code.as_str()).collect();
    assert_eq!(codes, vec!["prefix-field", "sop-field"]);
    assert_eq!(check_responses(&[r], DEFAULT_PREFIX).findings.len(), 2);
}

#[test]
fn list_line_shows_sop_or_dash() {
    let with_sop = parse_response(
        "corpus/responses/resp-a.md",
        "---\nid: resp-a\ntitle: A title\nsop: none\n---\n\nbody\n",
    );
    assert_eq!(
        list_line(&with_sop),
        "resp-a\tA title\tsop=none\tcorpus/responses/resp-a.md"
    );
    let without = parse_response("x/resp-b.md", "# B\n\nbody\n");
    assert_eq!(list_line(&without), "resp-b\tB\tsop=-\tx/resp-b.md");
}
