use canonic::doctor::{critical_missing, format_doctor, ToolStatus};

#[test]
fn format_doctor_marks_missing_tools() {
    let statuses = vec![
        ToolStatus {
            name: "pandoc".into(),
            present: false,
            detail: "not on PATH".into(),
        },
        ToolStatus {
            name: "vale".into(),
            present: true,
            detail: "present".into(),
        },
    ];
    let text = format_doctor(&statuses);
    assert!(text.contains("pandoc: MISSING"));
    assert!(text.contains("vale: ok"));
    assert_eq!(critical_missing(&statuses).len(), 1);
}

#[test]
fn doctor_lines_have_exact_shape() {
    let s = ToolStatus {
        name: "pandoc".into(),
        present: true,
        detail: "pandoc 3.1".into(),
    };
    assert_eq!(s.line(), "pandoc: ok — pandoc 3.1");
    let text = format_doctor(&[s]);
    assert_eq!(text, "canonic doctor\npandoc: ok — pandoc 3.1\n");
}
