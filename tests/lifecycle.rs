use tempfs::create::{plan_creation, ResourceKind};
use tempfs::temp_dir::TempDir;
use tempfs::temp_file::{Removal, TempFile};
use tempfs::names::generate_unique;
use tempfs::{NameConfig, TempError};

fn file_at(path: &str, present: &[bool], handle: Vec<u8>) -> TempFile<Vec<u8>> {
    let plan = plan_creation(path, ResourceKind::File, false, present).unwrap();
    TempFile::from_created(&plan, handle)
}

fn removal(r: &Removal) -> (bool, String) {
    match r {
        Removal::File(p) => (false, p.clone()),
        Removal::Tree(p) => (true, p.clone()),
    }
}

#[test]
fn persist_hands_out_handle_once() {
    let mut f = file_at("/tmp/a.txt", &[true, true], vec![1, 2]);
    assert!(f.is_active());
    assert_eq!(f.path(), Some("/tmp/a.txt"));
    assert_eq!(f.persist().unwrap(), vec![1, 2]);
    assert!(!f.is_active());
    assert_eq!(f.path(), None);
    assert!(matches!(f.persist(), Err(TempError::FileIsNone)));
    assert!(matches!(f.file(), Err(TempError::FileIsNone)));
}

#[test]
fn dropping_active_file_removes_it() {
    let mut f = file_at("/tmp/a.txt", &[true, true], vec![]);
    let r = f.release().unwrap();
    assert_eq!(removal(&r), (false, "/tmp/a.txt".to_string()));
    assert!(f.release().is_none());
}

#[test]
fn dropping_removes_created_parent_tree() {
    let mut f = file_at("/tmp/n1/n2/a.txt", &[true, true, false, false], vec![]);
    let r = f.release().unwrap();
    assert_eq!(removal(&r), (true, "/tmp/n1".to_string()));
}

#[test]
fn disposed_files_remove_nothing_on_drop() {
    let mut a = file_at("/tmp/a.txt", &[true, true], vec![]);
    a.persist().unwrap();
    assert!(a.release().is_none());
    let mut b = file_at("/tmp/b.txt", &[true, true], vec![]);
    b.close().unwrap();
    assert!(b.release().is_none());
    assert!(matches!(b.close(), Err(TempError::FileIsNone)));
    let mut c = file_at("/tmp/c.txt", &[true, true], vec![]);
    c.delete().unwrap();
    assert!(c.release().is_none());
    let mut d = file_at("/tmp/d.txt", &[true, true], vec![]);
    d.disarm().unwrap();
    assert!(d.release().is_none());
    assert!(matches!(d.disarm(), Err(TempError::FileIsNone)));
}

#[test]
fn from_fp_requires_same_resource() {
    assert!(matches!(
        TempFile::from_fp(3u8, "/tmp/z", false),
        Err(TempError::InvalidFileOrPath)
    ));
    let f = TempFile::from_fp(3u8, "/tmp/z", true).unwrap();
    assert_eq!(f.path(), Some("/tmp/z"));
    assert_eq!(f.into_inner().unwrap(), 3u8);
}

#[test]
fn rename_bare_name_stays_in_parent() {
    let f = file_at("/tmp/dir/a.txt", &[true, true, true], vec![]);
    assert_eq!(f.rename_target("b.txt", "/cwd").unwrap(), Some("/tmp/dir/b.txt".to_string()));
    assert_eq!(
        f.rename_target("/other/c.txt", "/cwd").unwrap(),
        Some("/other/c.txt".to_string())
    );
    assert_eq!(f.rename_target("x/../y.txt", "/cwd").unwrap(), Some("/tmp/dir/y.txt".to_string()));
    assert_eq!(f.rename_here_target("b.txt", "/cwd"), Some("/cwd/b.txt".to_string()));
    assert_eq!(f.rename_here_target("/o/b.txt", "/cwd"), Some("/o/b.txt".to_string()));
}

#[test]
fn rename_of_disposed_file_does_nothing() {
    let mut f = file_at("/tmp/a.txt", &[true, true], vec![]);
    f.persist().unwrap();
    assert_eq!(f.rename_target("b.txt", "/cwd").unwrap(), None);
    assert_eq!(f.rename_here_target("b.txt", "/cwd"), None);
    f.relocate("/tmp/b.txt".to_string());
    assert_eq!(f.path(), None);
}

#[test]
fn persist_under_new_name_keeps_content() {
    let mut f = file_at("/scratch/t1.txt", &[true, true], Vec::new());
    f.file_mut().unwrap().extend_from_slice(b"abc");
    let dest = f.rename_target("final.txt", "/cwd").unwrap().unwrap();
    assert_eq!(dest, "/scratch/final.txt");
    f.relocate(dest);
    assert_eq!(f.path(), Some("/scratch/final.txt"));
    let content = f.persist().unwrap();
    assert_eq!(content, b"abc".to_vec());
    assert!(f.release().is_none());
}

#[test]
fn registry_lists_children_and_tears_down_children_first() {
    let dplan = plan_creation("/tmp/reg", ResourceKind::Dir, false, &[true, true]).unwrap();
    let mut dir: TempDir<u8> = TempDir::from_created(&dplan);
    let named = dir.child_path("child.txt").unwrap();
    assert_eq!(named, "/tmp/reg/child.txt");
    let plan = plan_creation(&named, ResourceKind::File, false, &[true, true, true]).unwrap();
    dir.adopt(TempFile::from_created(&plan, 1u8));
    let mut cfg = NameConfig::new();
    let name = generate_unique(&mut cfg, &["child.txt".to_string()]).unwrap();
    let random = dir.child_path(&name).unwrap();
    let plan = plan_creation(&random, ResourceKind::File, false, &[true, true, true]).unwrap();
    let child = dir.adopt(TempFile::from_created(&plan, 2u8));
    assert_eq!(child.path(), Some(random.as_str()));
    assert_eq!(dir.list_files().len(), 2);
    assert!(dir.get_file("child.txt").is_some());
    assert!(dir.get_file("missing.txt").is_none());
    let removals: Vec<(bool, String)> = dir.teardown().iter().map(removal).collect();
    assert_eq!(
        removals,
        vec![
            (false, "/tmp/reg/child.txt".to_string()),
            (false, random.clone()),
            (true, "/tmp/reg".to_string()),
        ]
    );
    assert_eq!(dir.path(), None);
    assert!(dir.list_files().is_empty());
    assert!(matches!(dir.child_path("x"), Err(TempError::IO(_))));
}

#[test]
fn remove_file_disposes_matching_child_now() {
    let dplan = plan_creation("/tmp/reg2", ResourceKind::Dir, false, &[true, true]).unwrap();
    let mut dir: TempDir<u8> = TempDir::from_created(&dplan);
    for n in ["a.txt", "b.log"] {
        let p = dir.child_path(n).unwrap();
        let plan = plan_creation(&p, ResourceKind::File, false, &[true, true, true]).unwrap();
        dir.adopt(TempFile::from_created(&plan, 0u8));
    }
    let removed: Vec<(bool, String)> = dir.remove_file("a.txt").iter().map(removal).collect();
    assert_eq!(removed, vec![(false, "/tmp/reg2/a.txt".to_string())]);
    assert_eq!(dir.list_files(), vec!["/tmp/reg2/b.log".to_string()]);
    assert!(dir.remove_file("a.txt").is_empty());
    assert!(dir.get_file_mut("b.log").is_some());
}

#[test]
fn pattern_search_over_children() {
    let dplan = plan_creation("/tmp/reg3", ResourceKind::Dir, false, &[true, true]).unwrap();
    let mut dir: TempDir<u8> = TempDir::from_created(&dplan);
    for n in ["match.txt", "nomatch.log"] {
        let p = dir.child_path(n).unwrap();
        let plan = plan_creation(&p, ResourceKind::File, false, &[true, true, true]).unwrap();
        dir.adopt(TempFile::from_created(&plan, 0u8));
    }
    let found = dir.find_files_by_pattern(".*\\.txt").unwrap();
    assert_eq!(found.len(), 1);
    assert_eq!(found[0].path(), Some("/tmp/reg3/match.txt"));
    assert!(matches!(dir.find_files_by_pattern("("), Err(TempError::Regex(_))));
    let found = dir.find_files_by_pattern_mut("log$").unwrap();
    assert_eq!(found.len(), 1);
    for f in found {
        *f.file_mut().unwrap() = 9;
    }
    assert_eq!(*dir.get_file("nomatch.log").unwrap().file().unwrap(), 9);
    assert_eq!(*dir.get_file("match.txt").unwrap().file().unwrap(), 0);
    assert!(matches!(dir.find_files_by_pattern_mut("["), Err(TempError::Regex(_))));
}

#[test]
fn given_up_directory_still_disposes_children() {
    let dplan = plan_creation("/tmp/n/reg4", ResourceKind::Dir, false, &[true, true, false]).unwrap();
    let mut dir: TempDir<u8> = TempDir::from_created(&dplan);
    let p = dir.child_path("f").unwrap();
    let plan = plan_creation(&p, ResourceKind::File, false, &[true, true, true, true]).unwrap();
    dir.adopt(TempFile::from_created(&plan, 0u8));
    assert_eq!(dir.into_path(), Some("/tmp/n/reg4".to_string()));
    let removals: Vec<(bool, String)> = dir.teardown().iter().map(removal).collect();
    assert_eq!(removals, vec![(false, "/tmp/n/reg4/f".to_string())]);
}

#[test]
fn directory_teardown_uses_created_parent() {
    let dplan = plan_creation("/tmp/n/reg5", ResourceKind::Dir, false, &[true, true, false]).unwrap();
    let mut dir: TempDir<u8> = TempDir::from_created(&dplan);
    let removals: Vec<(bool, String)> = dir.teardown().iter().map(removal).collect();
    assert_eq!(removals, vec![(true, "/tmp/n".to_string())]);
}
