use canonic::scaffold::{resolve_response_id, ScaffoldOptions};

#[test]
fn resolve_id_rejects_non_resp_prefix() {
    let opts = ScaffoldOptions {
        title: "X".into(),
        id: Some("personal-foo".into()),
        ..Default::default()
    };
    assert!(resolve_response_id(&opts).is_err());
}
