use canonic::index::tokenize;

#[test]
fn tokenize_splits_and_lowercases() {
    assert_eq!(
        tokenize("Hello, Project-Space!"),
        vec!["hello", "project", "space"]
    );
}
