use tempfs::virt_fs::{SeekFrom, VirtDir, VirtFS, VirtFile, VirtMetadata, VirtPath, VirtPermissions};

#[test]
fn new_filesystem_is_at_root() {
    let fs = VirtFS::new();
    assert_eq!(fs.pwd(), "/");
}

#[test]
fn cd_joins_and_normalizes() {
    let mut fs = VirtFS::new();
    fs.cd(VirtPath::from("a/b"));
    assert_eq!(fs.pwd(), "/a/b");
    fs.cd(VirtPath::from(".."));
    assert_eq!(fs.pwd(), "/a");
    fs.cd(VirtPath::from("/x/./y/"));
    assert_eq!(fs.pwd(), "/x/y");
}

#[test]
fn nav_rel_inserts_one_separator() {
    let p = VirtPath::from("/a");
    assert_eq!(p.nav_rel(VirtPath::from("b")).bytes(), b"/a/b");
    let q = VirtPath::from("/a/");
    assert_eq!(q.nav_rel(VirtPath::from("b")).bytes(), b"/a/b");
    let mut r = VirtPath::from("x");
    r.bytes_mut().push(b'y');
    assert_eq!(r.bytes(), b"xy");
}

#[test]
fn metadata_and_permissions() {
    let m = VirtMetadata::new(0o644);
    assert_eq!(m.permissions.mode, 0o644);
    assert_eq!(m.owner, "root");
    assert_eq!(m.group, "root");
    assert_eq!(VirtPermissions::new(0o700).mode, 0o700);
    assert_eq!(VirtPermissions::S_IRUSR | VirtPermissions::S_IWUSR | VirtPermissions::S_IXUSR, 0o700);
}

#[test]
fn directory_lookups_by_name() {
    let mut d = VirtDir {
        path: VirtPath::from("/"),
        files: Vec::new(),
        dirs: Vec::new(),
        metadata: VirtMetadata::new(0o755),
    };
    assert_eq!(d.name(), "/");
    d.dirs.push(VirtDir {
        path: VirtPath::from("/sub"),
        files: Vec::new(),
        dirs: Vec::new(),
        metadata: VirtMetadata::new(0o755),
    });
    d.insert_file(VirtFile::new(VirtPath::from("/f.txt"), VirtMetadata::new(0o644)));
    assert_eq!(d.find_dir("sub").unwrap().name(), "sub");
    assert!(d.find_dir("nope").is_none());
    assert!(d.find_file("f.txt").is_some());
    assert!(d.find_file("g.txt").is_none());
    d.find_file_mut("f.txt").unwrap().content.push(1);
    assert_eq!(d.find_file("f.txt").unwrap().content, vec![1]);
    d.find_dir_mut("sub").unwrap().metadata.permissions.mode = 0o700;
    assert_eq!(d.find_dir("sub").unwrap().metadata.permissions.mode, 0o700);
}

#[test]
fn file_cursor_resets() {
    let mut f = VirtFile::new(VirtPath::from("/f"), VirtMetadata::new(0o644));
    f.cursor = 5;
    f.reset_cursor();
    assert_eq!(f.cursor, 0);
    assert!(f.content.is_empty());
}

#[test]
fn permissions_render_like_ls() {
    assert_eq!(VirtPermissions::new(0o755).to_string(), "rwxr-xr-x");
    assert_eq!(VirtPermissions::new(0o640).to_string(), "rw-r-----");
    assert_eq!(VirtPermissions::new(0).to_string(), "---------");
}

#[test]
fn mkdir_creates_missing_chain_and_ls_lists() {
    let mut fs = VirtFS::new();
    fs.mkdir(VirtPath::from("/a/b/c")).unwrap();
    assert_eq!(fs.ls(Some(VirtPath::from("/"))).unwrap(), vec!["a/".to_string()]);
    assert_eq!(fs.ls(Some(VirtPath::from("/a"))).unwrap(), vec!["b/".to_string()]);
    fs.mkdir(VirtPath::from("/a/d")).unwrap();
    assert_eq!(fs.ls(Some(VirtPath::from("/a"))).unwrap(), vec!["b/".to_string(), "d/".to_string()]);
    assert!(fs.ls(Some(VirtPath::from("/nope"))).is_err());
    fs.cd(VirtPath::from("/a"));
    assert_eq!(fs.ls(None::<VirtPath>).unwrap(), vec!["b/".to_string(), "d/".to_string()]);
}

#[test]
fn touch_needs_parent_and_keeps_existing() {
    let mut fs = VirtFS::new();
    assert!(matches!(fs.touch(VirtPath::from("/x/f.txt")), Err(tempfs::FsError::NotFound(_))));
    assert!(matches!(fs.touch(VirtPath::from("/")), Err(tempfs::FsError::InvalidPath(_))));
    fs.touch(VirtPath::from("/f.txt")).unwrap();
    fs.open_file_mut(VirtPath::from("/f.txt")).unwrap().content.push(7);
    fs.touch(VirtPath::from("f.txt")).unwrap();
    assert_eq!(fs.open_file_mut(VirtPath::from("/f.txt")).unwrap().content, vec![7]);
    assert_eq!(fs.ls(Some(VirtPath::from("/"))).unwrap(), vec!["f.txt".to_string()]);
}

#[test]
fn open_creates_and_round_trips_content() {
    let mut fs = VirtFS::new();
    fs.mkdir(VirtPath::from("/d")).unwrap();
    {
        let f = fs.open(VirtPath::from("/d/data.bin")).unwrap();
        let payload: Vec<u8> = (0..5000u32).map(|i| (i % 251) as u8).collect();
        assert_eq!(f.write(&payload), 5000);
        assert_eq!(f.seek(SeekFrom::Start(0)).unwrap(), 0);
        let mut back = vec![0u8; 5000];
        assert_eq!(f.read(&mut back), 5000);
        assert_eq!(back, payload);
    }
    let f = fs.open(VirtPath::from("/d/data.bin")).unwrap();
    assert_eq!(f.content.len(), 5000);
}

#[test]
fn write_pads_gap_and_seek_rejects_negative() {
    let mut f = VirtFile::new(VirtPath::from("/f"), VirtMetadata::new(0o644));
    assert_eq!(f.write(b""), 0);
    assert!(f.content.is_empty());
    assert_eq!(f.seek(SeekFrom::End(3)).unwrap(), 3);
    f.write(b"ab");
    assert_eq!(f.content, vec![0, 0, 0, b'a', b'b']);
    assert!(f.seek(SeekFrom::Current(-10)).is_err());
    assert_eq!(f.seek(SeekFrom::Current(-2)).unwrap(), 3);
    f.write(b"Z");
    assert_eq!(f.content, vec![0, 0, 0, b'Z', b'b']);
    f.reset_cursor();
    let mut two = [9u8; 2];
    assert_eq!(f.read(&mut two), 2);
    assert_eq!(two, [0, 0]);
    f.seek(SeekFrom::Start(5)).unwrap();
    assert_eq!(f.read(&mut two), 0);
}

#[test]
fn rm_and_rmdir() {
    let mut fs = VirtFS::new();
    fs.mkdir(VirtPath::from("/d/e")).unwrap();
    fs.touch(VirtPath::from("/d/f")).unwrap();
    assert!(matches!(fs.rm(VirtPath::from("/d/g")), Err(tempfs::FsError::NotFound(_))));
    fs.rm(VirtPath::from("/d/f")).unwrap();
    assert_eq!(fs.ls(Some(VirtPath::from("/d"))).unwrap(), vec!["e/".to_string()]);
    assert!(matches!(fs.rmdir(VirtPath::from("/d")), Err(tempfs::FsError::AlreadyExists(_))));
    assert!(matches!(fs.rmdir(VirtPath::from("/")), Err(tempfs::FsError::InvalidPath(_))));
    fs.rmdir(VirtPath::from("/d/e")).unwrap();
    fs.rmdir(VirtPath::from("/d")).unwrap();
    assert!(fs.ls(Some(VirtPath::from("/"))).unwrap().is_empty());
}

#[test]
fn chmod_chown_and_stat() {
    let mut fs = VirtFS::new();
    fs.mkdir(VirtPath::from("/d")).unwrap();
    fs.touch(VirtPath::from("/d/f")).unwrap();
    assert_eq!(fs.stat(VirtPath::from("/d/f")).unwrap().permissions.mode, 0o644);
    assert_eq!(fs.stat(VirtPath::from("/d")).unwrap().permissions.mode, 0o755);
    fs.chmod(VirtPath::from("/d/f"), 0o600).unwrap();
    fs.chmod(VirtPath::from("/d"), 0o700).unwrap();
    assert_eq!(fs.stat(VirtPath::from("/d/f")).unwrap().permissions.mode, 0o600);
    assert_eq!(fs.stat(VirtPath::from("/d")).unwrap().permissions.mode, 0o700);
    fs.chown(VirtPath::from("/d/f"), "alice", "staff").unwrap();
    let m = fs.stat(VirtPath::from("/d/f")).unwrap();
    assert_eq!((m.owner.as_str(), m.group.as_str()), ("alice", "staff"));
    assert!(matches!(fs.chmod(VirtPath::from("/d/x"), 1), Err(tempfs::FsError::NotFound(_))));
    assert!(matches!(fs.stat(VirtPath::from("/q/x")), Err(tempfs::FsError::NotFound(_))));
}

#[test]
fn rename_moves_files_and_directory_trees() {
    let mut fs = VirtFS::new();
    fs.mkdir(VirtPath::from("/a/sub")).unwrap();
    fs.mkdir(VirtPath::from("/b")).unwrap();
    fs.touch(VirtPath::from("/a/sub/f")).unwrap();
    fs.touch(VirtPath::from("/a/g")).unwrap();
    fs.rename(VirtPath::from("/a/g"), VirtPath::from("/b/h")).unwrap();
    assert_eq!(fs.ls(Some(VirtPath::from("/b"))).unwrap(), vec!["h".to_string()]);
    fs.rename(VirtPath::from("/a/sub"), VirtPath::from("/b/moved")).unwrap();
    assert_eq!(fs.ls(Some(VirtPath::from("/b/moved"))).unwrap(), vec!["f".to_string()]);
    assert_eq!(
        fs.open_file_mut(VirtPath::from("/b/moved/f")).unwrap().path.bytes(),
        b"/b/moved/f"
    );
    assert!(matches!(
        fs.rename(VirtPath::from("/nope"), VirtPath::from("/b/x")),
        Err(tempfs::FsError::NotFound(_))
    ));
}

#[test]
fn update_path_rebuilds_children() {
    let mut d = VirtDir {
        path: VirtPath::from("/old"),
        files: Vec::new(),
        dirs: Vec::new(),
        metadata: VirtMetadata::new(0o755),
    };
    d.insert_file(VirtFile::new(VirtPath::from("/old/f"), VirtMetadata::new(0o644)));
    d.update_path(VirtPath::from("/new"));
    assert_eq!(d.files[0].path.bytes(), b"/new/f");
    assert_eq!(d.name(), "new");
}
