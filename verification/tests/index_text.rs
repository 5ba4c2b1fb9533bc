use canonic::corpus::parse_response;
use canonic::index::{jaccard_counts, sanitize_query, self_query_for, snippet, snippet_for};

fn jaccard_similarity(a: &str, b: &str) -> f64 {
    let (inter, in_a, only_b) = jaccard_counts(a, b);
    let union = in_a + only_b;
    if union == 0 {
        1.0
    } else {
        inter as f64 / union as f64
    }
}

#[test]
fn jaccard_high_for_near_duplicates() {
    let a = "project space is not a backup or archive on demo";
    let b = "project space is not a backup archive for demo users";
    let c = "small compute request needs an sbu calculation for gpu nodes";
    assert!(jaccard_similarity(a, b) > jaccard_similarity(a, c));
    assert!(jaccard_similarity(a, b) > 0.3);
}

#[test]
fn jaccard_counts_distinct_tokens() {
    assert_eq!(jaccard_counts("a a b", "b c c"), (1, 2, 1));
    assert_eq!(jaccard_counts("", ""), (0, 0, 0));
    assert_eq!(jaccard_counts("Same words", "same WORDS"), (2, 2, 0));
    assert_eq!(jaccard_similarity("", ""), 1.0);
    assert_eq!(jaccard_similarity("x", ""), 0.0);
}

#[test]
fn snippet_windows_around_first_match() {
    let text = "Line one about storage.\nThe second line mentions Backup plans.";
    assert_eq!(
        snippet_for(text, "backup"),
        "...about storage. The second line mentions Backup plans."
    );
    let short = "Short text";
    assert_eq!(snippet_for(short, "nomatch"), "Short text");
    assert_eq!(snippet_for("", "x"), "");
    let long = "a ".repeat(100);
    let s = snippet_for(&long, "zzz");
    assert_eq!(s.chars().count(), 123);
    assert!(s.ends_with("..."));
    assert_eq!(snippet(&long, "zzz"), Some(s));
}

#[test]
fn self_query_keeps_title_and_long_words() {
    let doc = parse_response(
        "x/resp-a.md",
        "---\nid: resp-a\ntitle: Quota limits\n---\n\nUse the (scratch) file-system; it is fast!! a bb ccc\n",
    );
    assert_eq!(self_query_for(&doc), "Quota limits scratch file-system fast");
}

#[test]
fn sanitize_keeps_only_terms() {
    assert_eq!(sanitize_query("Hello, (World)!  AND-or"), "hello world and or");
    assert_eq!(sanitize_query("   "), "");
}

#[test]
fn jaccard_overlap_is_symmetric() {
    let (i_ab, a_ab, b_ab) = jaccard_counts("alpha beta gamma beta", "gamma delta alpha");
    let (i_ba, a_ba, b_ba) = jaccard_counts("gamma delta alpha", "alpha beta gamma beta");
    assert_eq!(i_ab, 2);
    assert_eq!(i_ab, i_ba);
    assert_eq!(a_ab + b_ab, 4);
    assert_eq!(a_ab + b_ab, a_ba + b_ba);
    assert_eq!(
        jaccard_similarity("alpha beta gamma", "gamma delta"),
        jaccard_similarity("gamma delta", "alpha beta gamma")
    );
}
