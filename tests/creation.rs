use tempfs::create::{plan_creation, ResourceKind, OWNER_ONLY_MODE};
use tempfs::paths::directory_prefixes;
use tempfs::TempError;

fn strings(v: &[&str]) -> Vec<String> {
    v.iter().map(|s| s.to_string()).collect()
}

#[test]
fn existing_file_target_is_refused() {
    let r = plan_creation("/tmp/x.txt", ResourceKind::File, true, &[true, true]);
    match r {
        Err(TempError::PathExists(p)) => assert_eq!(p, "/tmp/x.txt"),
        _ => panic!("expected PathExists"),
    }
}

#[test]
fn existing_directory_target_is_planned() {
    let plan = plan_creation("/tmp/d", ResourceKind::Dir, true, &[true, true]).unwrap();
    assert_eq!(plan.make_dirs, Some("/tmp/d".to_string()));
    assert_eq!(plan.harden, strings(&["/tmp/d"]));
    assert_eq!(plan.created_parent, None);
}

#[test]
fn file_with_all_parents_present() {
    let plan = plan_creation("/tmp/x.txt", ResourceKind::File, false, &[true, true]).unwrap();
    assert_eq!(plan.target, "/tmp/x.txt");
    assert_eq!(plan.make_dirs, None);
    assert!(plan.fresh_dirs.is_empty());
    assert_eq!(plan.harden, strings(&["/tmp/x.txt"]));
    assert_eq!(plan.created_parent, None);
    assert_eq!(OWNER_ONLY_MODE, 0o700);
}

#[test]
fn rollback_marker_covers_every_new_ancestor() {
    let target = "/s/d1/d2/d3/leaf.txt";
    assert_eq!(directory_prefixes(target).len(), 5);
    let plan =
        plan_creation(target, ResourceKind::File, false, &[true, true, false, false, false])
            .unwrap();
    assert_eq!(plan.created_parent, Some("/s/d1".to_string()));
    assert_eq!(plan.fresh_dirs, strings(&["/s/d1", "/s/d1/d2", "/s/d1/d2/d3"]));
    assert_eq!(plan.make_dirs, Some("/s/d1/d2/d3".to_string()));
    assert_eq!(
        plan.harden,
        strings(&["/s/d1", "/s/d1/d2", "/s/d1/d2/d3", "/s/d1/d2/d3/leaf.txt"])
    );
    for d in &plan.fresh_dirs {
        assert!(d.starts_with("/s/d1"));
    }
}

#[test]
fn directory_with_missing_parents() {
    let plan = plan_creation("/s/a/b", ResourceKind::Dir, false, &[true, true, false]).unwrap();
    assert_eq!(plan.created_parent, Some("/s/a".to_string()));
    assert_eq!(plan.fresh_dirs, strings(&["/s/a", "/s/a/b"]));
    assert_eq!(plan.harden, strings(&["/s/a", "/s/a/b"]));
    assert_eq!(plan.make_dirs, Some("/s/a/b".to_string()));
}
