use canonic::convert::pandoc_jira_args;

#[test]
fn pandoc_args_target_jira_writer() {
    let args = pandoc_jira_args();
    assert!(args.contains(&"markdown"));
    assert!(args.contains(&"jira"));
    assert_eq!(args, vec!["-f", "markdown", "-t", "jira"]);
}
