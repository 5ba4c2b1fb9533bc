use canonic::convert::pandoc_version_line;

#[test]
fn version_line_is_first_line_trimmed() {
    assert_eq!(pandoc_version_line(true, "pandoc 3.1.9\nFeatures: +server\n"), Some("pandoc 3.1.9".to_string()));
    assert_eq!(pandoc_version_line(false, "  pandoc 2.0  \n"), Some("pandoc 2.0".to_string()));
    assert_eq!(pandoc_version_line(false, ""), None);
    assert_eq!(pandoc_version_line(true, ""), None);
    assert_eq!(pandoc_version_line(true, "   \nsecond"), None);
}
