use qtcloud_work::ids::{is_id, new_id};

fn parts(items: &[&str]) -> Vec<String> {
    items.iter().map(|s| s.to_string()).collect()
}

#[test]
fn derive_is_stable_and_kind_aware() {
    let first = qtcloud_work::ids::derive("workflow", &parts(&["ws-1", "课程档案比对"]));
    let again = qtcloud_work::ids::derive("workflow", &parts(&["ws-1", "课程档案比对"]));
    assert_eq!(first, again);
    assert_ne!(first, qtcloud_work::ids::derive("workflow", &parts(&["ws-2", "课程档案比对"])));
    assert_ne!(first, qtcloud_work::ids::derive("step", &parts(&["ws-1", "课程档案比对"])));
    assert!(is_id(&first));
    assert!(!is_id("不是凭证"));
}

#[test]
fn derive_matches_uuid_v5_of_the_joined_name() {
    let namespace = uuid::Uuid::parse_str("90cf5627-95f3-5e25-ba48-47d50dee6e09").unwrap();
    let expected = uuid::Uuid::new_v5(&namespace, "ws-1/workflow/流".as_bytes()).to_string();
    assert_eq!(qtcloud_work::ids::derive("workflow", &parts(&["ws-1", "流"])), expected);
}

#[test]
fn ids_are_checked_after_trimming() {
    assert!(is_id("  00000000-0000-0000-0000-000000000001 "));
    assert!(!is_id(""));
    assert!(is_id(&new_id()));
    assert_ne!(new_id(), new_id());
}
