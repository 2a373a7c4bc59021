use databend_core::stage::{new_upload_id, relative_path_or_root, upload_file_name, stage_dir, stage_object_path, upload_succeeded, StageType};

#[test]
fn internal_stage_files_live_under_the_stage_prefix() {
    assert_eq!(stage_dir(StageType::Internal, "s1", "data"), "/stage/s1/data/");
    assert_eq!(stage_dir(StageType::Internal, "s1", "/"), "/stage/s1///");
    assert_eq!(stage_object_path("/stage/s1/data/", "a.csv"), "/stage/s1/data/a.csv");
}

#[test]
fn external_stage_uses_its_own_location() {
    assert_eq!(stage_dir(StageType::External, "s2", "in/"), "in/");
    assert_eq!(stage_object_path("in/", "b.csv"), "in/b.csv");
}

#[test]
fn upload_defaults_and_response() {
    assert_eq!(relative_path_or_root(None), "/");
    assert_eq!(relative_path_or_root(Some("x/".to_string())), "x/");
    let r = upload_succeeded("id1".to_string(), "s1".to_string(), vec!["a.csv".to_string()]);
    assert_eq!(r.state, "SUCCESS");
    assert_eq!(r.files, vec!["a.csv".to_string()]);
    assert_eq!(r.stage_name, "s1");
}

#[test]
fn unnamed_uploads_get_random_names() {
    assert_eq!(upload_file_name(Some("a.csv".to_string())), "a.csv");
    let a = upload_file_name(None);
    let b = upload_file_name(None);
    assert_eq!(a.len(), 36);
    assert_ne!(a, b);
    let id = new_upload_id();
    assert_eq!(id.len(), 36);
    assert_eq!(id.chars().nth(8), Some('-'));
    assert_eq!(id.chars().nth(23), Some('-'));
}
