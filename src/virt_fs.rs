use vstd::prelude::*;
use vstd::string::*;
use vstd::utf8::*;
use crate::error::FsError;
use crate::paths::{
    segments, get_components, views, same_text, render, render_path, is_rooted,
    lemma_segments_render, lemma_segments_well_formed,
};

verus! {

#[verifier::external_type_specification]
#[verifier::external_body]
pub struct ExSystemTime(std::time::SystemTime);

/// Relies on `std::time::SystemTime::now`: the current time, of which nothing
/// is promised.
#[verifier::external_body]
fn now() -> std::time::SystemTime {
    std::time::SystemTime::now()
}

/// The text `String::from_utf8_lossy` makes of some bytes.
pub uninterp spec fn lossy_text(b: Seq<u8>) -> Seq<char>;

/// Relies on `String::from_utf8_lossy`: valid UTF-8 is decoded unchanged;
/// each invalid sequence becomes U+FFFD.
#[verifier::external_body]
fn text_of_bytes(b: &[u8]) -> (r: String)
    ensures
        r@ == lossy_text(b@),
        valid_utf8(b@) ==> r@ == decode_utf8(b@),
{
    String::from_utf8_lossy(b).into_owned()
}

/// The UTF-8 bytes of a string.
fn bytes_of(s: &str) -> (r: Vec<u8>)
    ensures
        r@ == encode_utf8(s@),
{
    vstd::slice::slice_to_vec(s.as_bytes())
}

/// Unix-like permissions stored as a mode bitmask.
#[derive(Clone, Copy, Debug)]
pub struct VirtPermissions {
    /// The permission mode.
    pub mode: u16,
}

impl VirtPermissions {
    /// User read permission bitmask.
    pub const S_IRUSR: u16 = 0o400;
    /// User write permission bitmask.
    pub const S_IWUSR: u16 = 0o200;
    /// User execute permission bitmask.
    pub const S_IXUSR: u16 = 0o100;
    /// Group read permission bitmask.
    pub const S_IRGRP: u16 = 0o040;
    /// Group write permission bitmask.
    pub const S_IWGRP: u16 = 0o020;
    /// Group execute permission bitmask.
    pub const S_IXGRP: u16 = 0o010;
    /// Others read permission bitmask.
    pub const S_IROTH: u16 = 0o004;
    /// Others write permission bitmask.
    pub const S_IWOTH: u16 = 0o002;
    /// Others execute permission bitmask.
    pub const S_IXOTH: u16 = 0o001;

    /// Permissions with the given mode.
    pub fn new(mode: u16) -> (r: Self)
        ensures
            r.mode == mode,
    {
        VirtPermissions { mode }
    }

    /// The nine-character form, as `ls` shows it: `r`, `w`, `x` for owner,
    /// group and others, `-` for each bit not set.
    pub fn to_string(&self) -> (r: String)
        ensures
            r@.len() == 9,
            forall|i: int| 0 <= i < 9 ==> #[trigger] r@[i] == perm_char(self.mode, i),
    {
        let mut out = String::new();
        let mut i: u16 = 0;
        while i < 9
            invariant
                i <= 9,
                out@.len() == i,
                forall|j: int| 0 <= j < i ==> #[trigger] out@[j] == perm_char(self.mode, j),
            decreases 9 - i,
        {
            let bit: u16 = 1u16 << (8 - i);
            let k = i % 3;
            let letter = if k == 0 {
                'r'
            } else if k == 1 {
                'w'
            } else {
                'x'
            };
            let c = if self.mode & bit != 0 {
                letter
            } else {
                '-'
            };
            assert(c == perm_char(self.mode, i as int));
            crate::names::push_char(&mut out, c);
            i = i + 1;
        }
        out
    }
}

/// The character at position `i` of a mode's nine-character form.
pub open spec fn perm_char(mode: u16, i: int) -> char {
    if mode & (1u16 << (8 - i) as u16) != 0 {
        if i % 3 == 0 {
            'r'
        } else if i % 3 == 1 {
            'w'
        } else {
            'x'
        }
    } else {
        '-'
    }
}

/// Metadata of files and directories.
pub struct VirtMetadata {
    /// The permissions.
    pub permissions: VirtPermissions,
    /// The owner.
    pub owner: String,
    /// The group.
    pub group: String,
    /// When the entry was created.
    pub created: std::time::SystemTime,
    /// When the entry was last modified.
    pub modified: std::time::SystemTime,
}

impl Clone for VirtMetadata {
    fn clone(&self) -> (r: Self)
        ensures
            r == *self,
    {
        VirtMetadata {
            permissions: self.permissions,
            owner: self.owner.clone(),
            group: self.group.clone(),
            created: self.created,
            modified: self.modified,
        }
    }
}

impl VirtMetadata {
    /// Metadata with the given mode, owned by `root:root`, created and
    /// modified now.
    pub fn new(default_mode: u16) -> (r: Self)
        ensures
            r.permissions.mode == default_mode,
            r.owner@ == seq!['r', 'o', 'o', 't'],
            r.group@ == seq!['r', 'o', 'o', 't'],
            r.created == r.modified,
    {
        let t = now();
        proof {
            reveal_strlit("root");
        }
        VirtMetadata {
            permissions: VirtPermissions::new(default_mode),
            owner: String::from_str("root"),
            group: String::from_str("root"),
            created: t,
            modified: t,
        }
    }
}

/// A path in the in-memory filesystem, as bytes.
pub enum VirtPath {
    /// A relative path, like `output.txt`.
    Relative(Vec<u8>),
    /// An absolute path, like `/home/user/output.txt`.
    Absolute(Vec<u8>),
}

impl View for VirtPath {
    /// Whether the path is absolute, and its bytes.
    type V = (bool, Seq<u8>);

    open spec fn view(&self) -> (bool, Seq<u8>) {
        match self {
            VirtPath::Relative(v) => (false, v@),
            VirtPath::Absolute(v) => (true, v@),
        }
    }
}

/// The text of a path.
pub open spec fn vtext(p: VirtPath) -> Seq<char> {
    lossy_text(p@.1)
}

impl Clone for VirtPath {
    fn clone(&self) -> (r: Self)
        ensures
            r@ == self@,
    {
        match self {
            VirtPath::Relative(v) => VirtPath::Relative(vstd::slice::slice_to_vec(v.as_slice())),
            VirtPath::Absolute(v) => VirtPath::Absolute(vstd::slice::slice_to_vec(v.as_slice())),
        }
    }
}

impl From<&str> for VirtPath {
    fn from(s: &str) -> (r: Self)
        ensures
            r@ == ((s@.len() > 0 && s@[0] == '/'), encode_utf8(s@)),
    {
        let abs = s.unicode_len() > 0 && s.get_char(0) == '/';
        let b = bytes_of(s);
        if abs {
            VirtPath::Absolute(b)
        } else {
            VirtPath::Relative(b)
        }
    }
}

impl From<String> for VirtPath {
    fn from(s: String) -> (r: Self)
        ensures
            r@ == ((s@.len() > 0 && s@[0] == '/'), encode_utf8(s@)),
    {
        let t = s.as_str();
        let abs = t.unicode_len() > 0 && t.get_char(0) == '/';
        let b = bytes_of(t);
        if abs {
            VirtPath::Absolute(b)
        } else {
            VirtPath::Relative(b)
        }
    }
}

impl vstd::std_specs::convert::FromSpecImpl<String> for VirtPath {
    open spec fn obeys_from_spec() -> bool {
        false
    }

    open spec fn from_spec(s: String) -> VirtPath {
        arbitrary()
    }
}

impl vstd::std_specs::convert::FromSpecImpl<&str> for VirtPath {
    open spec fn obeys_from_spec() -> bool {
        false
    }

    open spec fn from_spec(s: &str) -> VirtPath {
        arbitrary()
    }
}

/// `rhs` appended to `base`, with a separator between them unless `base`
/// ends with one.
pub open spec fn nav_bytes(base: Seq<u8>, rhs: Seq<u8>) -> Seq<u8> {
    if base.len() > 0 && base.last() == 47u8 {
        base + rhs
    } else {
        base.push(47u8) + rhs
    }
}

impl VirtPath {
    /// The path's bytes.
    pub fn bytes(&self) -> (r: &[u8])
        ensures
            r@ == self@.1,
    {
        match self {
            VirtPath::Absolute(v) | VirtPath::Relative(v) => v.as_slice(),
        }
    }

    /// The path's bytes, for mutation.
    pub fn bytes_mut(&mut self) -> (r: &mut Vec<u8>)
        ensures
            *r == (match *old(self) {
                VirtPath::Absolute(v) => v,
                VirtPath::Relative(v) => v,
            }),
            final(self)@ == (old(self)@.0, final(r)@),
    {
        match self {
            VirtPath::Absolute(v) => v,
            VirtPath::Relative(v) => v,
        }
    }

    /// The path reached by appending the relative path `rhs`; a separator
    /// goes between them unless this path ends with one.
    pub fn nav_rel(&self, rhs: VirtPath) -> (r: VirtPath)
        ensures
            r@ == (self@.0, nav_bytes(self@.1, rhs@.1)),
    {
        let src = self.bytes();
        let mut b: Vec<u8> = vstd::slice::slice_to_vec(src);
        let n = b.len();
        if !(n > 0 && b[n - 1] == 47u8) {
            b.push(47u8);
        }
        let ghost before = b@;
        b.extend_from_slice(rhs.bytes());
        assert(b@ =~= before + rhs@.1);
        match self {
            VirtPath::Absolute(_) => VirtPath::Absolute(b),
            VirtPath::Relative(_) => VirtPath::Relative(b),
        }
    }
}

/// Converts a path to text.
pub fn path_to_str(vp: &VirtPath) -> (r: String)
    ensures
        r@ == vtext(*vp),
        valid_utf8(vp@.1) ==> r@ == decode_utf8(vp@.1),
{
    text_of_bytes(vp.bytes())
}

/// A file of the in-memory filesystem: its content, its metadata, and a
/// cursor for reading and writing.
pub struct VirtFile {
    /// The path to the file.
    pub path: VirtPath,
    /// The raw content of the file.
    pub content: Vec<u8>,
    /// The metadata of the file.
    pub metadata: VirtMetadata,
    /// The position at which the next read or write starts.
    pub cursor: usize,
}

impl VirtFile {
    /// An empty file with the cursor at the start.
    pub fn new(path: VirtPath, metadata: VirtMetadata) -> (r: Self)
        ensures
            r.path == path,
            r.content@.len() == 0,
            r.metadata == metadata,
            r.cursor == 0,
    {
        VirtFile { path, content: Vec::new(), metadata, cursor: 0 }
    }

    /// Moves the cursor back to the start.
    pub fn reset_cursor(&mut self)
        ensures
            final(self).cursor == 0,
            final(self).path == old(self).path,
            final(self).content == old(self).content,
            final(self).metadata == old(self).metadata,
    {
        self.cursor = 0;
    }
}

/// A directory of the in-memory filesystem.
pub struct VirtDir {
    /// The path to the directory.
    pub path: VirtPath,
    /// The files in the directory.
    pub files: Vec<VirtFile>,
    /// The subdirectories.
    pub dirs: Vec<VirtDir>,
    /// The metadata of the directory.
    pub metadata: VirtMetadata,
}

/// The name a directory answers to: the last segment of its path, `/` for
/// the root, and the whole text where it has no segment.
pub open spec fn dir_name(d: VirtDir) -> Seq<char> {
    let t = vtext(d.path);
    if t == seq!['/'] {
        t
    } else if segments(t).len() > 0 {
        segments(t).last()
    } else {
        t
    }
}

/// The name a file answers to: the last segment of its path.
pub open spec fn file_entry_name(f: VirtFile) -> Option<Seq<char>> {
    let segs = segments(vtext(f.path));
    if segs.len() > 0 {
        Some(segs.last())
    } else {
        None
    }
}

/// The first directory of `dirs` named `name` is at `i`.
pub open spec fn first_dir_named(dirs: Seq<VirtDir>, name: Seq<char>, i: int) -> bool {
    0 <= i < dirs.len() && dir_name(dirs[i]) == name && forall|j: int|
        0 <= j < i ==> dir_name(#[trigger] dirs[j]) != name
}

/// The first file of `files` named `name` is at `i`.
pub open spec fn first_file_named(files: Seq<VirtFile>, name: Seq<char>, i: int) -> bool {
    0 <= i < files.len() && file_entry_name(files[i]) == Some(name) && forall|j: int|
        0 <= j < i ==> file_entry_name(#[trigger] files[j]) != Some(name)
}

pub open spec fn dir_index_of(dirs: Seq<VirtDir>, name: Seq<char>) -> Option<int> {
    if exists|i: int| first_dir_named(dirs, name, i) {
        Some(choose|i: int| first_dir_named(dirs, name, i))
    } else {
        None
    }
}

pub open spec fn file_index_of(files: Seq<VirtFile>, name: Seq<char>) -> Option<int> {
    if exists|i: int| first_file_named(files, name, i) {
        Some(choose|i: int| first_file_named(files, name, i))
    } else {
        None
    }
}

proof fn lemma_dir_index_of(dirs: Seq<VirtDir>, name: Seq<char>, i: int)
    requires
        first_dir_named(dirs, name, i),
    ensures
        dir_index_of(dirs, name) == Some(i),
{
    let c = choose|i: int| first_dir_named(dirs, name, i);
    assert(first_dir_named(dirs, name, c));
    if c < i {
        assert(dir_name(dirs[c]) != name);
    } else if i < c {
        assert(dir_name(dirs[i]) != name);
    }
}

proof fn lemma_dir_index_none(dirs: Seq<VirtDir>, name: Seq<char>)
    requires
        forall|j: int| 0 <= j < dirs.len() ==> dir_name(#[trigger] dirs[j]) != name,
    ensures
        dir_index_of(dirs, name) is None,
{
    if exists|i: int| first_dir_named(dirs, name, i) {
        let c = choose|i: int| first_dir_named(dirs, name, i);
        assert(dir_name(dirs[c]) == name);
    }
}

proof fn lemma_file_index_of(files: Seq<VirtFile>, name: Seq<char>, i: int)
    requires
        first_file_named(files, name, i),
    ensures
        file_index_of(files, name) == Some(i),
{
    let c = choose|i: int| first_file_named(files, name, i);
    assert(first_file_named(files, name, c));
    if c < i {
        assert(file_entry_name(files[c]) != Some(name));
    } else if i < c {
        assert(file_entry_name(files[i]) != Some(name));
    }
}

proof fn lemma_file_index_none(files: Seq<VirtFile>, name: Seq<char>)
    requires
        forall|j: int| 0 <= j < files.len() ==> file_entry_name(#[trigger] files[j]) != Some(name),
    ensures
        file_index_of(files, name) is None,
{
    if exists|i: int| first_file_named(files, name, i) {
        let c = choose|i: int| first_file_named(files, name, i);
        assert(file_entry_name(files[c]) == Some(name));
    }
}

proof fn lemma_first_named_exists(files: Seq<VirtFile>, name: Seq<char>, j: int)
    requires
        0 <= j < files.len(),
        file_entry_name(files[j]) == Some(name),
    ensures
        exists|i: int| first_file_named(files, name, i),
    decreases j,
{
    if forall|m: int| 0 <= m < j ==> file_entry_name(#[trigger] files[m]) != Some(name) {
        assert(first_file_named(files, name, j));
    } else {
        let m = choose|m: int| 0 <= m < j && file_entry_name(#[trigger] files[m]) == Some(name);
        lemma_first_named_exists(files, name, m);
    }
}

proof fn lemma_first_dir_exists(dirs: Seq<VirtDir>, name: Seq<char>, j: int)
    requires
        0 <= j < dirs.len(),
        dir_name(dirs[j]) == name,
    ensures
        exists|i: int| first_dir_named(dirs, name, i),
    decreases j,
{
    if forall|m: int| 0 <= m < j ==> dir_name(#[trigger] dirs[m]) != name {
        assert(first_dir_named(dirs, name, j));
    } else {
        let m = choose|m: int| 0 <= m < j && dir_name(#[trigger] dirs[m]) == name;
        lemma_first_dir_exists(dirs, name, m);
    }
}

/// The directory reached from `d` by following `comps`, each a
/// subdirectory name.
pub open spec fn dir_at(d: VirtDir, comps: Seq<Seq<char>>) -> Option<VirtDir>
    decreases comps.len(),
{
    if comps.len() == 0 {
        Some(d)
    } else {
        match dir_index_of(d.dirs@, comps[0]) {
            Some(i) => dir_at(d.dirs@[i], comps.drop_first()),
            None => None,
        }
    }
}

impl VirtDir {
    /// The name this directory answers to.
    pub fn name(&self) -> (r: String)
        ensures
            r@ == dir_name(*self),
    {
        let full = path_to_str(&self.path);
        proof {
            reveal_strlit("/");
            assert("/"@ =~= seq!['/']);
        }
        if same_text(full.as_str(), "/") {
            return full;
        }
        let comps = get_components(full.as_str());
        if comps.len() > 0 {
            assert(views(comps@).last() == comps@[comps@.len() - 1]@);
            comps[comps.len() - 1].clone()
        } else {
            full
        }
    }

    fn dir_index(&self, name: &str) -> (r: Option<usize>)
        ensures
            match r {
                Some(i) => first_dir_named(self.dirs@, name@, i as int) && dir_index_of(
                    self.dirs@,
                    name@,
                ) == Some(i as int),
                None => dir_index_of(self.dirs@, name@) is None,
            },
    {
        let mut i: usize = 0;
        while i < self.dirs.len()
            invariant
                i <= self.dirs@.len(),
                forall|j: int| 0 <= j < i ==> dir_name(#[trigger] self.dirs@[j]) != name@,
            decreases self.dirs@.len() - i,
        {
            let n = self.dirs[i].name();
            if same_text(n.as_str(), name) {
                proof {
                    lemma_dir_index_of(self.dirs@, name@, i as int);
                }
                return Some(i);
            }
            i = i + 1;
        }
        proof {
            lemma_dir_index_none(self.dirs@, name@);
        }
        None
    }

    fn file_index(&self, name: &str) -> (r: Option<usize>)
        ensures
            match r {
                Some(i) => first_file_named(self.files@, name@, i as int) && file_index_of(
                    self.files@,
                    name@,
                ) == Some(i as int),
                None => file_index_of(self.files@, name@) is None,
            },
    {
        let mut i: usize = 0;
        while i < self.files.len()
            invariant
                i <= self.files@.len(),
                forall|j: int| 0 <= j < i ==> file_entry_name(#[trigger] self.files@[j]) != Some(name@),
            decreases self.files@.len() - i,
        {
            let full = path_to_str(&self.files[i].path);
            let comps = get_components(full.as_str());
            if comps.len() > 0 {
                let last = comps[comps.len() - 1].as_str();
                assert(views(comps@).last() == last@);
                if same_text(last, name) {
                    proof {
                        lemma_file_index_of(self.files@, name@, i as int);
                    }
                    return Some(i);
                }
            }
            i = i + 1;
        }
        proof {
            lemma_file_index_none(self.files@, name@);
        }
        None
    }

    /// The first subdirectory named `name`, for mutation.
    pub fn find_dir_mut(&mut self, name: &str) -> (r: Option<&mut VirtDir>)
        ensures
            match dir_index_of(old(self).dirs@, name@) {
                Some(i) => r matches Some(d) && *d == old(self).dirs@[i] && final(self).dirs@
                    == old(self).dirs@.update(i, *final(d)) && final(self).path == old(self).path
                    && final(self).files == old(self).files && final(self).metadata == old(
                    self,
                ).metadata,
                None => r is None && *final(self) == *old(self),
            },
    {
        match self.dir_index(name) {
            Some(i) => Some(&mut self.dirs[i]),
            None => None,
        }
    }

    /// The first subdirectory named `name`.
    pub fn find_dir(&self, name: &str) -> (r: Option<&VirtDir>)
        ensures
            match dir_index_of(self.dirs@, name@) {
                Some(i) => r == Some(&self.dirs@[i]),
                None => r is None,
            },
    {
        match self.dir_index(name) {
            Some(i) => Some(&self.dirs[i]),
            None => None,
        }
    }

    /// The first file named `name`, for mutation.
    pub fn find_file_mut(&mut self, name: &str) -> (r: Option<&mut VirtFile>)
        ensures
            match file_index_of(old(self).files@, name@) {
                Some(i) => r matches Some(f) && *f == old(self).files@[i] && final(self).files@
                    == old(self).files@.update(i, *final(f)) && final(self).path == old(self).path
                    && final(self).dirs == old(self).dirs && final(self).metadata == old(
                    self,
                ).metadata,
                None => r is None && *final(self) == *old(self),
            },
    {
        match self.file_index(name) {
            Some(i) => Some(&mut self.files[i]),
            None => None,
        }
    }

    /// The first file named `name`.
    pub fn find_file(&self, name: &str) -> (r: Option<&VirtFile>)
        ensures
            match file_index_of(self.files@, name@) {
                Some(i) => r == Some(&self.files@[i]),
                None => r is None,
            },
    {
        match self.file_index(name) {
            Some(i) => Some(&self.files[i]),
            None => None,
        }
    }

    fn file_at_mut(&mut self, k: usize) -> (r: &mut VirtFile)
        requires
            k < old(self).files@.len(),
        ensures
            *r == old(self).files@[k as int],
            final(self).files@ == old(self).files@.update(k as int, *final(r)),
            final(self).path == old(self).path,
            final(self).dirs == old(self).dirs,
            final(self).metadata == old(self).metadata,
    {
        &mut self.files[k]
    }

    fn dir_at_mut(&mut self, k: usize) -> (r: &mut VirtDir)
        requires
            k < old(self).dirs@.len(),
        ensures
            *r == old(self).dirs@[k as int],
            final(self).dirs@ == old(self).dirs@.update(k as int, *final(r)),
            final(self).path == old(self).path,
            final(self).files == old(self).files,
            final(self).metadata == old(self).metadata,
    {
        &mut self.dirs[k]
    }

    fn remove_files_named(&mut self, name: &str)
        ensures
            final(self).files@ == files_without(old(self).files@, name@),
            final(self).path == old(self).path,
            final(self).dirs == old(self).dirs,
            final(self).metadata == old(self).metadata,
    {
        let mut rest: Vec<VirtFile> = Vec::new();
        std::mem::swap(&mut self.files, &mut rest);
        let ghost orig = rest@;
        let n: usize = rest.len();
        let mut i: usize = 0;
        assert(orig.subrange(0, 0) =~= Seq::<VirtFile>::empty());
        assert(rest@ =~= orig.subrange(0, n as int));
        while rest.len() > 0
            invariant
                i + rest@.len() == n,
                n == orig.len(),
                rest@ == orig.subrange(i as int, n as int),
                self.files@ == files_without(orig.subrange(0, i as int), name@),
                self.path == old(self).path,
                self.dirs == old(self).dirs,
                self.metadata == old(self).metadata,
            decreases rest@.len(),
        {
            let ghost after = orig.subrange(0, i + 1);
            let f = rest.remove(0);
            assert(after.drop_last() =~= orig.subrange(0, i as int));
            assert(after.last() == f);
            let keep = match entry_name(&f) {
                Some(e) => !same_text(e.as_str(), name),
                None => true,
            };
            if keep {
                self.files.push(f);
            }
            i = i + 1;
            assert(rest@ =~= orig.subrange(i as int, n as int));
        }
        assert(orig.subrange(0, i as int) =~= orig);
    }

    fn remove_dirs_named(&mut self, name: &str)
        ensures
            final(self).dirs@ == dirs_without(old(self).dirs@, name@),
            final(self).path == old(self).path,
            final(self).files == old(self).files,
            final(self).metadata == old(self).metadata,
    {
        let mut rest: Vec<VirtDir> = Vec::new();
        std::mem::swap(&mut self.dirs, &mut rest);
        let ghost orig = rest@;
        let n: usize = rest.len();
        let mut i: usize = 0;
        assert(orig.subrange(0, 0) =~= Seq::<VirtDir>::empty());
        assert(rest@ =~= orig.subrange(0, n as int));
        while rest.len() > 0
            invariant
                i + rest@.len() == n,
                n == orig.len(),
                rest@ == orig.subrange(i as int, n as int),
                self.dirs@ == dirs_without(orig.subrange(0, i as int), name@),
                self.path == old(self).path,
                self.files == old(self).files,
                self.metadata == old(self).metadata,
            decreases rest@.len(),
        {
            let ghost after = orig.subrange(0, i + 1);
            let d = rest.remove(0);
            assert(after.drop_last() =~= orig.subrange(0, i as int));
            assert(after.last() == d);
            let n2 = d.name();
            if !same_text(n2.as_str(), name) {
                self.dirs.push(d);
            }
            i = i + 1;
            assert(rest@ =~= orig.subrange(i as int, n as int));
        }
        assert(orig.subrange(0, i as int) =~= orig);
    }

    fn take_file(&mut self, k: usize) -> (r: VirtFile)
        requires
            k < old(self).files@.len(),
        ensures
            r == old(self).files@[k as int],
            final(self).files@ == old(self).files@.remove(k as int),
            final(self).path == old(self).path,
            final(self).dirs == old(self).dirs,
            final(self).metadata == old(self).metadata,
    {
        self.files.remove(k)
    }

    fn take_dir(&mut self, k: usize) -> (r: VirtDir)
        requires
            k < old(self).dirs@.len(),
        ensures
            r == old(self).dirs@[k as int],
            final(self).dirs@ == old(self).dirs@.remove(k as int),
            final(self).path == old(self).path,
            final(self).files == old(self).files,
            final(self).metadata == old(self).metadata,
    {
        self.dirs.remove(k)
    }

    /// Adds a file to the directory.
    pub fn insert_file(&mut self, file: VirtFile)
        ensures
            final(self).files@ == old(self).files@.push(file),
            final(self).dirs == old(self).dirs,
            final(self).path == old(self).path,
            final(self).metadata == old(self).metadata,
    {
        self.files.push(file);
    }
}

/// `b` is `a` except inside the directory reached by `comps`, whose name
/// is kept.
pub open spec fn changed_only_at(a: VirtDir, b: VirtDir, comps: Seq<Seq<char>>) -> bool
    decreases comps.len(),
{
    if comps.len() == 0 {
        dir_name(b) == dir_name(a)
    } else {
        match dir_index_of(a.dirs@, comps[0]) {
            Some(i) => {
                &&& b.path == a.path
                &&& b.files == a.files
                &&& b.metadata == a.metadata
                &&& b.dirs@.len() == a.dirs@.len()
                &&& forall|j: int| 0 <= j < a.dirs@.len() && j != i ==> b.dirs@[j] == a.dirs@[j]
                &&& changed_only_at(a.dirs@[i], b.dirs@[i], comps.drop_first())
            },
            None => b == a,
        }
    }
}

proof fn lemma_changed_keeps_name(a: VirtDir, b: VirtDir, comps: Seq<Seq<char>>)
    requires
        changed_only_at(a, b, comps),
    ensures
        dir_name(b) == dir_name(a),
{
}

proof fn lemma_descend(before: VirtDir, k: int, rest: Seq<Seq<char>>)
    requires
        rest.len() > 0,
        first_dir_named(before.dirs@, rest[0], k),
        dir_index_of(before.dirs@, rest[0]) == Some(k),
    ensures
        dir_at(before, rest) == dir_at(before.dirs@[k], rest.drop_first()),
        forall|after: VirtDir|
            #![trigger changed_only_at(before, after, rest)]
            #![trigger dir_at(after, rest)]
            after.path == before.path && after.files == before.files && after.metadata
                == before.metadata && after.dirs@.len() == before.dirs@.len() && (forall|j: int|
                0 <= j < before.dirs@.len() && j != k ==> after.dirs@[j] == before.dirs@[j])
                && changed_only_at(before.dirs@[k], after.dirs@[k], rest.drop_first())
                ==> changed_only_at(before, after, rest) && dir_at(after, rest) == dir_at(
                after.dirs@[k],
                rest.drop_first(),
            ),
{
    assert forall|after: VirtDir|
        after.path == before.path && after.files == before.files && after.metadata
            == before.metadata && after.dirs@.len() == before.dirs@.len() && (forall|j: int|
            0 <= j < before.dirs@.len() && j != k ==> after.dirs@[j] == before.dirs@[j])
            && changed_only_at(
            before.dirs@[k],
            after.dirs@[k],
            rest.drop_first(),
        ) implies changed_only_at(before, after, rest) && dir_at(after, rest) == dir_at(
        after.dirs@[k],
        rest.drop_first(),
    ) by {
        lemma_changed_keeps_name(before.dirs@[k], after.dirs@[k], rest.drop_first());
        assert forall|j: int| 0 <= j < k implies dir_name(#[trigger] after.dirs@[j]) != rest[0] by {
            assert(after.dirs@[j] == before.dirs@[j]);
        }
        assert(first_dir_named(after.dirs@, rest[0], k));
        lemma_dir_index_of(after.dirs@, rest[0], k);
    }
}

/// The directory reached from `d` by following `comps[i..]`.
fn dir_ref_at<'a>(d: &'a VirtDir, comps: &Vec<String>, i: usize) -> (r: Option<&'a VirtDir>)
    requires
        i <= comps@.len(),
    ensures
        match r {
            Some(x) => dir_at(*d, views(comps@).subrange(i as int, comps@.len() as int)) == Some(*x),
            None => dir_at(*d, views(comps@).subrange(i as int, comps@.len() as int)) is None,
        },
    decreases comps@.len() - i,
{
    let ghost rest = views(comps@).subrange(i as int, comps@.len() as int);
    if i == comps.len() {
        assert(rest.len() == 0);
        return Some(d);
    }
    assert(rest[0] == comps@[i as int]@);
    assert(rest.drop_first() =~= views(comps@).subrange(i + 1, comps@.len() as int));
    match d.dir_index(comps[i].as_str()) {
        Some(k) => dir_ref_at(&d.dirs[k], comps, i + 1),
        None => None,
    }
}

/// The directory reached from `d` by following `comps[i..]`, for mutation.
/// Changing it, while keeping its name, changes nothing else.
fn dir_mut_at<'a>(d: &'a mut VirtDir, comps: &Vec<String>, i: usize) -> (r: &'a mut VirtDir)
    requires
        i <= comps@.len(),
        dir_at(*old(d), views(comps@).subrange(i as int, comps@.len() as int)) is Some,
    ensures
        dir_at(*old(d), views(comps@).subrange(i as int, comps@.len() as int)) == Some(*r),
        dir_name(*final(r)) == dir_name(*r) ==> changed_only_at(
            *old(d),
            *final(d),
            views(comps@).subrange(i as int, comps@.len() as int),
        ) && dir_at(*final(d), views(comps@).subrange(i as int, comps@.len() as int)) == Some(
            *final(r),
        ),
    decreases comps@.len() - i,
{
    let ghost rest = views(comps@).subrange(i as int, comps@.len() as int);
    if i == comps.len() {
        assert(rest.len() == 0);
        return d;
    }
    assert(rest[0] == comps@[i as int]@);
    assert(rest.drop_first() =~= views(comps@).subrange(i + 1, comps@.len() as int));
    let k = d.dir_index(comps[i].as_str()).unwrap();
    proof {
        lemma_descend(*d, k as int, rest);
    }
    dir_mut_at(&mut d.dirs[k], comps, i + 1)
}

/// One step of the in-memory filesystem's normalization: `.` is dropped;
/// `..` removes the last segment, and is kept where there is none in a
/// relative path.
pub open spec fn vnorm_step(abs: bool, stack: Seq<Seq<char>>, seg: Seq<char>) -> Seq<Seq<char>> {
    if seg == seq!['.'] {
        stack
    } else if seg == seq!['.', '.'] {
        if stack.len() > 0 {
            stack.drop_last()
        } else if !abs {
            stack.push(seg)
        } else {
            stack
        }
    } else {
        stack.push(seg)
    }
}

pub open spec fn vnorm_fold(abs: bool, segs: Seq<Seq<char>>) -> Seq<Seq<char>>
    decreases segs.len(),
{
    if segs.len() == 0 {
        Seq::empty()
    } else {
        vnorm_step(abs, vnorm_fold(abs, segs.drop_last()), segs.last())
    }
}

/// A path of the in-memory filesystem in canonical form.
pub open spec fn vnormalized(s: Seq<char>) -> Seq<char> {
    render(is_rooted(s), vnorm_fold(is_rooted(s), segments(s)))
}

/// A relative path joined onto the working directory.
pub open spec fn vjoin(cur: Seq<char>, p: Seq<char>) -> Seq<char> {
    if cur.len() > 0 && cur.last() == '/' {
        cur + p
    } else {
        cur + seq!['/'] + p
    }
}

/// The canonical absolute text a path resolves to from working directory
/// `cwd`.
pub open spec fn resolved_text(cwd: Seq<char>, p: Seq<char>) -> Seq<char> {
    vnormalized(
        if is_rooted(p) {
            p
        } else {
            vjoin(cwd, p)
        },
    )
}

/// Canonicalizes a path: `.` and empty segments go, `..` removes the
/// segment before it.
fn normalize_path(path: &str) -> (r: String)
    ensures
        r@ == vnormalized(path@),
{
    let abs = path.unicode_len() > 0 && path.get_char(0) == '/';
    let segs = get_components(path);
    let mut stack: Vec<String> = Vec::new();
    let mut i: usize = 0;
    assert(views(segs@).subrange(0, 0) =~= Seq::<Seq<char>>::empty());
    assert(views(stack@) =~= Seq::<Seq<char>>::empty());
    while i < segs.len()
        invariant
            i <= segs.len(),
            abs == is_rooted(path@),
            views(segs@) == segments(path@),
            views(stack@) == vnorm_fold(abs, views(segs@).subrange(0, i as int)),
        decreases segs.len() - i,
    {
        let ghost before = views(segs@).subrange(0, i as int);
        let ghost after = views(segs@).subrange(0, i + 1);
        assert(after.drop_last() =~= before);
        let seg = segs[i].as_str();
        let n = seg.unicode_len();
        if n == 1 && seg.get_char(0) == '.' {
            assert(seg@ =~= seq!['.']);
        } else if n == 2 && seg.get_char(0) == '.' && seg.get_char(1) == '.' {
            assert(seg@ =~= seq!['.', '.']);
            if stack.len() > 0 {
                stack.pop();
                assert(views(stack@) =~= vnorm_fold(abs, before).drop_last());
            } else if !abs {
                let owned = String::from_str(seg);
                proof {
                    crate::paths::lemma_views_push(stack@, owned);
                }
                stack.push(owned);
            }
        } else {
            assert(seg@ != seq!['.']);
            assert(seg@ != seq!['.', '.']);
            let owned = String::from_str(seg);
            proof {
                crate::paths::lemma_views_push(stack@, owned);
            }
            stack.push(owned);
        }
        i = i + 1;
    }
    assert(views(segs@).subrange(0, segs.len() as int) =~= views(segs@));
    render_path(abs, &stack)
}

/// A virtual in-memory filesystem with Unix-like operations.
pub struct VirtFS {
    root: VirtDir,
    current_dir: VirtPath,
}

impl Default for VirtFS {
    fn default() -> (r: Self)
        ensures
            r.root_view().path@ == (true, seq![47u8]),
            r.root_view().files@.len() == 0,
            r.root_view().dirs@.len() == 0,
            r.cwd_view()@ == (true, seq![47u8]),
    {
        VirtFS::new()
    }
}

impl VirtFS {
    /// The root directory.
    pub closed spec fn root_view(&self) -> VirtDir {
        self.root
    }

    /// The working directory.
    pub closed spec fn cwd_view(&self) -> VirtPath {
        self.current_dir
    }

    /// The canonical absolute text `path` resolves to.
    pub open spec fn resolved_view(&self, path: VirtPath) -> Seq<char> {
        resolved_text(vtext(self.cwd_view()), vtext(path))
    }

    /// The directory names leading to where `path` resolves.
    pub open spec fn target_comps(&self, path: VirtPath) -> Seq<Seq<char>> {
        segments(self.resolved_view(path))
    }

    /// A filesystem with an empty root directory `/`, which is also the
    /// working directory.
    pub fn new() -> (r: Self)
        ensures
            r.root_view().path@ == (true, seq![47u8]),
            r.root_view().files@.len() == 0,
            r.root_view().dirs@.len() == 0,
            r.root_view().metadata.permissions.mode == 0o755,
            r.cwd_view()@ == (true, seq![47u8]),
    {
        let root_dir = VirtDir {
            path: VirtPath::Absolute(vec![47u8]),
            files: Vec::new(),
            dirs: Vec::new(),
            metadata: VirtMetadata::new(0o755),
        };
        let r = VirtFS { root: root_dir, current_dir: VirtPath::Absolute(vec![47u8]) };
        assert(r.root.path@.1 =~= seq![47u8]);
        assert(r.current_dir@.1 =~= seq![47u8]);
        r
    }

    fn resolve_path(&self, path: &VirtPath) -> (r: String)
        ensures
            r@ == self.resolved_view(*path),
    {
        let p = path_to_str(path);
        if p.as_str().unicode_len() > 0 && p.as_str().get_char(0) == '/' {
            normalize_path(p.as_str())
        } else {
            let cur = path_to_str(&self.current_dir);
            let n = cur.as_str().unicode_len();
            let mut joined = cur.clone();
            proof {
                reveal_strlit("/");
                assert("/"@ =~= seq!['/']);
            }
            if !(n > 0 && cur.as_str().get_char(n - 1) == '/') {
                joined.append("/");
            }
            joined.append(p.as_str());
            proof {
                if n > 0 {
                    assert(cur@.last() == cur@[n - 1]);
                }
                assert(joined@ =~= vjoin(cur@, p@));
            }
            normalize_path(joined.as_str())
        }
    }

    /// Changes the working directory: an absolute path replaces it, a
    /// relative one is appended to it; the result is canonicalized.
    pub fn cd(&mut self, path: VirtPath)
        ensures
            final(self).cwd_view()@ == (
                true,
                encode_utf8(
                    vnormalized(
                        lossy_text(
                            if path@.0 {
                                path@.1
                            } else {
                                nav_bytes(old(self).cwd_view()@.1, path@.1)
                            },
                        ),
                    ),
                ),
            ),
            final(self).root_view() == old(self).root_view(),
    {
        let next = match path {
            VirtPath::Absolute(_) => path,
            VirtPath::Relative(_) => self.current_dir.nav_rel(path),
        };
        let text = path_to_str(&next);
        let normalized = normalize_path(text.as_str());
        self.current_dir = VirtPath::Absolute(bytes_of(normalized.as_str()));
    }

    /// The working directory as text.
    pub fn pwd(&self) -> (r: String)
        ensures
            r@ == vtext(self.cwd_view()),
    {
        path_to_str(&self.current_dir)
    }
}

/// An absolute path with the given text.
fn absolute(s: &str) -> (r: VirtPath)
    ensures
        r@ == (true, encode_utf8(s@)),
        vtext(r) == s@,
{
    let r = VirtPath::Absolute(bytes_of(s));
    proof {
        encode_utf8_valid_utf8(s@);
        encode_utf8_decode_utf8(s@);
    }
    // Reading the text back shows that it is `s`.
    let text = path_to_str(&r);
    r
}

/// `q` is `p` with one more file, `f`, at the end.
pub open spec fn with_new_file(p: VirtDir, q: VirtDir, f: VirtFile) -> bool {
    q.path == p.path && q.dirs == p.dirs && q.metadata == p.metadata && q.files@ == p.files@.push(f)
}

/// `q` is `p` with its file at `k` replaced by `g`.
pub open spec fn with_file_at(p: VirtDir, q: VirtDir, k: int, g: VirtFile) -> bool {
    q.path == p.path && q.dirs == p.dirs && q.metadata == p.metadata && q.files@ == p.files@.update(
        k,
        g,
    )
}

/// `q` is `p` with its subdirectory at `k` replaced by `g`.
pub open spec fn with_dir_at(p: VirtDir, q: VirtDir, k: int, g: VirtDir) -> bool {
    q.path == p.path && q.files == p.files && q.metadata == p.metadata && q.dirs@ == p.dirs@.update(
        k,
        g,
    )
}

/// `m` is `old` with only its permission mode, and modification time,
/// changed.
pub open spec fn mode_changed(old: VirtMetadata, m: VirtMetadata, mode: u16) -> bool {
    m.permissions.mode == mode && m.owner == old.owner && m.group == old.group && m.created
        == old.created
}

/// `m` is `old` with only its owner and group, and modification time,
/// changed.
pub open spec fn owner_changed(old: VirtMetadata, m: VirtMetadata, owner: Seq<char>, group: Seq<char>) -> bool {
    m.permissions == old.permissions && m.owner@ == owner && m.group@ == group && m.created
        == old.created
}

/// The files not named `name`, in order.
pub open spec fn files_without(files: Seq<VirtFile>, name: Seq<char>) -> Seq<VirtFile>
    decreases files.len(),
{
    if files.len() == 0 {
        Seq::empty()
    } else if file_entry_name(files.last()) == Some(name) {
        files_without(files.drop_last(), name)
    } else {
        files_without(files.drop_last(), name).push(files.last())
    }
}

/// The directories not named `name`, in order.
pub open spec fn dirs_without(dirs: Seq<VirtDir>, name: Seq<char>) -> Seq<VirtDir>
    decreases dirs.len(),
{
    if dirs.len() == 0 {
        Seq::empty()
    } else if dir_name(dirs.last()) == name {
        dirs_without(dirs.drop_last(), name)
    } else {
        dirs_without(dirs.drop_last(), name).push(dirs.last())
    }
}

/// The names of the files that have one, in order.
pub open spec fn file_names(files: Seq<VirtFile>) -> Seq<Seq<char>>
    decreases files.len(),
{
    if files.len() == 0 {
        Seq::empty()
    } else {
        match file_entry_name(files.last()) {
            Some(n) => file_names(files.drop_last()).push(n),
            None => file_names(files.drop_last()),
        }
    }
}

/// What listing a directory shows: each subdirectory's name followed by
/// `/`, then each file's name.
pub open spec fn listing(d: VirtDir) -> Seq<Seq<char>> {
    d.dirs@.map_values(|x: VirtDir| dir_name(x) + seq!['/']) + file_names(d.files@)
}

fn not_found(what: &str, name: &str) -> (r: FsError)
    ensures
        r is NotFound,
{
    let mut msg = String::from_str(what);
    msg.append(" ");
    msg.append(name);
    msg.append(" not found");
    FsError::NotFound(msg)
}

impl VirtFS {
    /// The directory names leading to where `path` resolves.
    fn locate(&self, path: &VirtPath) -> (r: Vec<String>)
        ensures
            views(r@) == self.target_comps(*path),
    {
        let abs = self.resolve_path(path);
        get_components(abs.as_str())
    }

    /// Creates an empty file where `path` resolves, unless a file of that
    /// name is there already. The directory that holds it must exist.
    pub fn touch(&mut self, path: VirtPath) -> (r: Result<(), FsError>)
        ensures
            final(self).cwd_view() == old(self).cwd_view(),
            ({
                let t = old(self).target_comps(path);
                if t.len() == 0 {
                    r matches Err(e) && e is InvalidPath && *final(self) == *old(self)
                } else {
                    match dir_at(old(self).root_view(), t.drop_last()) {
                        None => r matches Err(e) && e is NotFound && *final(self) == *old(self),
                        Some(p) => r is Ok && if file_index_of(p.files@, t.last()) is Some {
                            *final(self) == *old(self)
                        } else {
                            changed_only_at(old(self).root_view(), final(self).root_view(), t.drop_last())
                                && exists|q: VirtDir, f: VirtFile|
                                #![trigger with_new_file(p, q, f)]
                                dir_at(final(self).root_view(), t.drop_last()) == Some(q)
                                    && with_new_file(p, q, f) && vtext(f.path) == render(true, t)
                                    && file_entry_name(f) == Some(t.last()) && file_index_of(q.files@, t.last())
                                    == Some(p.files@.len() as int) && f.content@.len() == 0
                                    && f.cursor == 0 && f.metadata.permissions.mode == 0o644
                        },
                    }
                }
            }),
    {
        let comps = self.locate(&path);
        if comps.len() == 0 {
            return Err(FsError::InvalidPath(String::from_str("Empty file name")));
        }
        let mut parent = comps.clone();
        let name = parent.pop().unwrap();
        let ghost t = views(comps@);
        assert(views(parent@) =~= t.drop_last());
        assert(name@ == t.last());
        match dir_ref_at(&self.root, &parent, 0) {
            None => {
                assert(views(parent@).subrange(0, parent@.len() as int) =~= views(parent@));
                return Err(not_found("Directory", name.as_str()));
            },
            Some(d) => {
                assert(views(parent@).subrange(0, parent@.len() as int) =~= views(parent@));
                if d.file_index(name.as_str()).is_some() {
                    return Ok(());
                }
            },
        }
        let full = render_path(true, &comps);
        proof {
            lemma_segments_well_formed(self.resolved_view(path));
            lemma_segments_render(t);
        }
        let file = VirtFile::new(absolute(full.as_str()), VirtMetadata::new(0o644));
        let ghost f = file;
        let ghost p = dir_at(self.root, t.drop_last())->0;
        assert(views(parent@).subrange(0, parent@.len() as int) =~= views(parent@));
        let d = dir_mut_at(&mut self.root, &parent, 0);
        d.files.push(file);
        assert(with_new_file(p, *d, f));
        proof {
            assert(file_index_of(p.files@, t.last()) is None);
            assert forall|j: int| 0 <= j < p.files@.len() implies file_entry_name(#[trigger] d.files@[j]) != Some(t.last()) by {
                assert(d.files@[j] == p.files@[j]);
                if file_entry_name(p.files@[j]) == Some(t.last()) {
                    lemma_first_named_exists(p.files@, t.last(), j);
                }
            }
            assert(first_file_named(d.files@, t.last(), p.files@.len() as int));
            lemma_file_index_of(d.files@, t.last(), p.files@.len() as int);
        }
        Ok(())
    }
}

fn entry_name(f: &VirtFile) -> (r: Option<String>)
    ensures
        match r {
            Some(n) => file_entry_name(*f) == Some(n@),
            None => file_entry_name(*f) is None,
        },
{
    let full = path_to_str(&f.path);
    let comps = get_components(full.as_str());
    if comps.len() == 0 {
        return None;
    }
    assert(views(comps@).last() == comps@[comps@.len() - 1]@);
    Some(comps[comps.len() - 1].clone())
}

impl VirtFS {
    /// Lists the directory where `path` resolves, or the working directory:
    /// each subdirectory's name followed by `/`, then each file's name.
    pub fn ls(&self, path: Option<VirtPath>) -> (r: Result<Vec<String>, FsError>)
        ensures
            ({
                let t = match path {
                    Some(p) => self.target_comps(p),
                    None => segments(vtext(self.cwd_view())),
                };
                match dir_at(self.root_view(), t) {
                    Some(d) => r matches Ok(v) && views(v@) == listing(d),
                    None => r matches Err(e) && e is NotFound,
                }
            }),
    {
        let comps = match path {
            Some(p) => self.locate(&p),
            None => {
                let cur = path_to_str(&self.current_dir);
                get_components(cur.as_str())
            },
        };
        assert(views(comps@).subrange(0, comps@.len() as int) =~= views(comps@));
        let d = match dir_ref_at(&self.root, &comps, 0) {
            Some(d) => d,
            None => {
                let shown = render_path(true, &comps);
                return Err(not_found("Directory", shown.as_str()));
            },
        };
        let mut entries: Vec<String> = Vec::new();
        let mut i: usize = 0;
        let ghost dnames = d.dirs@.map_values(|x: VirtDir| dir_name(x) + seq!['/']);
        assert(views(entries@) =~= dnames.subrange(0, 0));
        while i < d.dirs.len()
            invariant
                i <= d.dirs@.len(),
                dnames == d.dirs@.map_values(|x: VirtDir| dir_name(x) + seq!['/']),
                views(entries@) == dnames.subrange(0, i as int),
            decreases d.dirs@.len() - i,
        {
            let mut n = d.dirs[i].name();
            proof {
                reveal_strlit("/");
                assert("/"@ =~= seq!['/']);
            }
            n.append("/");
            proof {
                crate::paths::lemma_views_push(entries@, n);
            }
            entries.push(n);
            assert(views(entries@) =~= dnames.subrange(0, i + 1));
            i = i + 1;
        }
        assert(dnames.subrange(0, d.dirs@.len() as int) =~= dnames);
        let mut j: usize = 0;
        assert(d.files@.subrange(0, 0) =~= Seq::<VirtFile>::empty());
        assert(views(entries@) =~= dnames + file_names(d.files@.subrange(0, 0)));
        while j < d.files.len()
            invariant
                j <= d.files@.len(),
                views(entries@) == dnames + file_names(d.files@.subrange(0, j as int)),
            decreases d.files@.len() - j,
        {
            let ghost after = d.files@.subrange(0, j + 1);
            assert(after.drop_last() =~= d.files@.subrange(0, j as int));
            match entry_name(&d.files[j]) {
                Some(n) => {
                    proof {
                        crate::paths::lemma_views_push(entries@, n);
                    }
                    entries.push(n);
                    assert(views(entries@) =~= dnames + file_names(after));
                },
                None => {},
            }
            j = j + 1;
        }
        assert(d.files@.subrange(0, d.files@.len() as int) =~= d.files@);
        Ok(entries)
    }

    /// The metadata of the file, or else the directory, where `path`
    /// resolves.
    pub fn stat(&self, path: VirtPath) -> (r: Result<VirtMetadata, FsError>)
        ensures
            ({
                let t = self.target_comps(path);
                if t.len() == 0 {
                    r matches Err(e) && e is InvalidPath
                } else {
                    match dir_at(self.root_view(), t.drop_last()) {
                        None => r matches Err(e) && e is NotFound,
                        Some(p) => match file_index_of(p.files@, t.last()) {
                            Some(k) => r matches Ok(m) && m == p.files@[k].metadata,
                            None => match dir_index_of(p.dirs@, t.last()) {
                                Some(k) => r matches Ok(m) && m == p.dirs@[k].metadata,
                                None => r matches Err(e) && e is NotFound,
                            },
                        },
                    }
                }
            }),
    {
        let comps = self.locate(&path);
        if comps.len() == 0 {
            return Err(FsError::InvalidPath(String::from_str("Empty path")));
        }
        let mut parent = comps.clone();
        let name = parent.pop().unwrap();
        let ghost t = views(comps@);
        assert(views(parent@) =~= t.drop_last());
        assert(name@ == t.last());
        assert(views(parent@).subrange(0, parent@.len() as int) =~= views(parent@));
        let d = match dir_ref_at(&self.root, &parent, 0) {
            Some(d) => d,
            None => return Err(not_found("Directory", name.as_str())),
        };
        if let Some(k) = d.file_index(name.as_str()) {
            return Ok(d.files[k].metadata.clone());
        }
        if let Some(k) = d.dir_index(name.as_str()) {
            return Ok(d.dirs[k].metadata.clone());
        }
        Err(not_found("Entry", name.as_str()))
    }

    /// The file where `path` resolves, for reading and writing.
    pub fn open_file_mut(&mut self, path: VirtPath) -> (r: Result<&mut VirtFile, FsError>)
        ensures
            final(self).cwd_view() == old(self).cwd_view(),
            ({
                let t = old(self).target_comps(path);
                if t.len() == 0 {
                    r matches Err(e) && e is InvalidPath && *final(self) == *old(self)
                } else {
                    match dir_at(old(self).root_view(), t.drop_last()) {
                        None => r matches Err(e) && e is NotFound && *final(self) == *old(self),
                        Some(p) => match file_index_of(p.files@, t.last()) {
                            None => r matches Err(e) && e is NotFound && *final(self) == *old(self),
                            Some(k) => match r {
                                Ok(f) => *f == p.files@[k] && changed_only_at(
                                    old(self).root_view(),
                                    final(self).root_view(),
                                    t.drop_last(),
                                ) && match dir_at(final(self).root_view(), t.drop_last()) {
                                    Some(q) => with_file_at(p, q, k, *final(f)),
                                    None => false,
                                },
                                Err(_) => false,
                            },
                        },
                    }
                }
            }),
    {
        let comps = self.locate(&path);
        if comps.len() == 0 {
            return Err(FsError::InvalidPath(String::from_str("Empty file name")));
        }
        let mut parent = comps.clone();
        let name = parent.pop().unwrap();
        let ghost t = views(comps@);
        assert(views(parent@) =~= t.drop_last());
        assert(name@ == t.last());
        assert(views(parent@).subrange(0, parent@.len() as int) =~= views(parent@));
        let k = match dir_ref_at(&self.root, &parent, 0) {
            None => return Err(not_found("Directory", name.as_str())),
            Some(d) => match d.file_index(name.as_str()) {
                None => return Err(not_found("File", name.as_str())),
                Some(k) => k,
            },
        };
        let ghost p = dir_at(self.root, t.drop_last())->0;
        let d = dir_mut_at(&mut self.root, &parent, 0);
        Ok(d.file_at_mut(k))
    }
}

/// `g` is `f` with only its metadata changed.
pub open spec fn file_meta_only(f: VirtFile, g: VirtFile) -> bool {
    g.path == f.path && g.content == f.content && g.cursor == f.cursor
}

/// `g` is `f` with only its metadata changed.
pub open spec fn dir_meta_only(f: VirtDir, g: VirtDir) -> bool {
    g.path == f.path && g.files == f.files && g.dirs == f.dirs
}

/// `q` is `p` with the metadata of its file at `k` changed by `changed`.
pub open spec fn file_meta_set(
    p: VirtDir,
    q: VirtDir,
    k: int,
    changed: spec_fn(VirtMetadata, VirtMetadata) -> bool,
) -> bool {
    with_file_at(p, q, k, q.files@[k]) && file_meta_only(p.files@[k], q.files@[k]) && changed(
        p.files@[k].metadata,
        q.files@[k].metadata,
    )
}

/// `q` is `p` with the metadata of its subdirectory at `k` changed by
/// `changed`.
pub open spec fn dir_meta_set(
    p: VirtDir,
    q: VirtDir,
    k: int,
    changed: spec_fn(VirtMetadata, VirtMetadata) -> bool,
) -> bool {
    with_dir_at(p, q, k, q.dirs@[k]) && dir_meta_only(p.dirs@[k], q.dirs@[k]) && changed(
        p.dirs@[k].metadata,
        q.dirs@[k].metadata,
    )
}

/// The outcome of a metadata change on the entry `t` names: the first file
/// of that name, else the first directory; `NotFound` where neither is.
pub open spec fn meta_change_outcome(
    old_root: VirtDir,
    new_root: VirtDir,
    t: Seq<Seq<char>>,
    r: Result<(), FsError>,
    changed: spec_fn(VirtMetadata, VirtMetadata) -> bool,
) -> bool {
    if t.len() == 0 {
        r matches Err(e) && e is InvalidPath && new_root == old_root
    } else {
        match dir_at(old_root, t.drop_last()) {
            None => r matches Err(e) && e is NotFound && new_root == old_root,
            Some(p) => match file_index_of(p.files@, t.last()) {
                Some(k) => r is Ok && changed_only_at(old_root, new_root, t.drop_last()) && match dir_at(
                    new_root,
                    t.drop_last(),
                ) {
                    Some(q) => file_meta_set(p, q, k, changed),
                    None => false,
                },
                None => match dir_index_of(p.dirs@, t.last()) {
                    Some(k) => r is Ok && changed_only_at(old_root, new_root, t.drop_last())
                        && match dir_at(new_root, t.drop_last()) {
                        Some(q) => dir_meta_set(p, q, k, changed),
                        None => false,
                    },
                    None => r matches Err(e) && e is NotFound && new_root == old_root,
                },
            },
        }
    }
}

proof fn lemma_dir_at_push(d: VirtDir, c: Seq<Seq<char>>, x: Seq<char>)
    ensures
        dir_at(d, c.push(x)) == match dir_at(d, c) {
            Some(q) => dir_at(q, seq![x]),
            None => None,
        },
    decreases c.len(),
{
    if c.len() == 0 {
        assert(c.push(x) =~= seq![x]);
    } else {
        assert(c.push(x)[0] == c[0]);
        assert(c.push(x).drop_first() =~= c.drop_first().push(x));
        match dir_index_of(d.dirs@, c[0]) {
            Some(i) => lemma_dir_at_push(d.dirs@[i], c.drop_first(), x),
            None => {},
        }
    }
}

fn clone_strings(v: &Vec<String>) -> (r: Vec<String>)
    ensures
        views(r@) == views(v@),
{
    let mut out: Vec<String> = Vec::new();
    let mut i: usize = 0;
    assert(views(out@) =~= views(v@).subrange(0, 0));
    while i < v.len()
        invariant
            i <= v@.len(),
            views(out@) == views(v@).subrange(0, i as int),
        decreases v@.len() - i,
    {
        let s = v[i].clone();
        proof {
            crate::paths::lemma_views_push(out@, s);
        }
        out.push(s);
        assert(views(out@) =~= views(v@).subrange(0, i + 1));
        i = i + 1;
    }
    assert(views(v@).subrange(0, v@.len() as int) =~= views(v@));
    out
}

impl VirtFS {
    fn split_target(&self, path: &VirtPath) -> (r: (Vec<String>, String))
        requires
            self.target_comps(*path).len() > 0,
        ensures
            views(r.0@) == self.target_comps(*path).drop_last(),
            r.1@ == self.target_comps(*path).last(),
    {
        let mut parent = self.locate(path);
        let ghost t = views(parent@);
        let name = parent.pop().unwrap();
        assert(views(parent@) =~= t.drop_last());
        (parent, name)
    }

    /// Opens the file where `path` resolves, creating it empty where it is
    /// missing; the directory that holds it must exist.
    pub fn open(&mut self, path: VirtPath) -> (r: Result<&mut VirtFile, FsError>)
        ensures
            final(self).cwd_view() == old(self).cwd_view(),
            ({
                let t = old(self).target_comps(path);
                if t.len() == 0 {
                    r matches Err(e) && e is InvalidPath
                } else {
                    match dir_at(old(self).root_view(), t.drop_last()) {
                        None => r matches Err(e) && e is NotFound,
                        Some(p) => r matches Ok(f) && file_entry_name(*f) == Some(t.last()),
                    }
                }
            }),
    {
        let again = path.clone();
        self.touch(path)?;
        self.open_file_mut(again)
    }

    /// Removes the files named as the last segment of where `path`
    /// resolves, from the directory that holds them.
    pub fn rm(&mut self, path: VirtPath) -> (r: Result<(), FsError>)
        ensures
            final(self).cwd_view() == old(self).cwd_view(),
            ({
                let t = old(self).target_comps(path);
                if t.len() == 0 {
                    r matches Err(e) && e is InvalidPath && *final(self) == *old(self)
                } else {
                    match dir_at(old(self).root_view(), t.drop_last()) {
                        None => r matches Err(e) && e is NotFound && *final(self) == *old(self),
                        Some(p) => if file_index_of(p.files@, t.last()) is None {
                            r matches Err(e) && e is NotFound && *final(self) == *old(self)
                        } else {
                            r is Ok && changed_only_at(
                                old(self).root_view(),
                                final(self).root_view(),
                                t.drop_last(),
                            ) && match dir_at(final(self).root_view(), t.drop_last()) {
                                Some(q) => q.path == p.path && q.dirs == p.dirs && q.metadata
                                    == p.metadata && q.files@ == files_without(p.files@, t.last()),
                                None => false,
                            }
                        },
                    }
                }
            }),
    {
        let comps = self.locate(&path);
        if comps.len() == 0 {
            return Err(FsError::InvalidPath(String::from_str("Empty file name")));
        }
        let (parent, name) = self.split_target(&path);
        assert(views(parent@).subrange(0, parent@.len() as int) =~= views(parent@));
        match dir_ref_at(&self.root, &parent, 0) {
            None => return Err(not_found("Directory", name.as_str())),
            Some(d) => if d.file_index(name.as_str()).is_none() {
                return Err(not_found("File", name.as_str()));
            },
        }
        let d = dir_mut_at(&mut self.root, &parent, 0);
        d.remove_files_named(name.as_str());
        Ok(())
    }

    /// Removes the directories named as the last segment of where `path`
    /// resolves. The first of them must be empty.
    pub fn rmdir(&mut self, path: VirtPath) -> (r: Result<(), FsError>)
        ensures
            final(self).cwd_view() == old(self).cwd_view(),
            ({
                let t = old(self).target_comps(path);
                if t.len() == 0 {
                    r matches Err(e) && e is InvalidPath && *final(self) == *old(self)
                } else {
                    match dir_at(old(self).root_view(), t.drop_last()) {
                        None => r matches Err(e) && e is NotFound && *final(self) == *old(self),
                        Some(p) => match dir_index_of(p.dirs@, t.last()) {
                            None => r matches Err(e) && e is NotFound && *final(self) == *old(self),
                            Some(k) => if p.dirs@[k].files@.len() > 0 || p.dirs@[k].dirs@.len() > 0 {
                                r matches Err(e) && e is AlreadyExists && *final(self) == *old(self)
                            } else {
                                r is Ok && changed_only_at(
                                    old(self).root_view(),
                                    final(self).root_view(),
                                    t.drop_last(),
                                ) && match dir_at(final(self).root_view(), t.drop_last()) {
                                    Some(q) => q.path == p.path && q.files == p.files && q.metadata
                                        == p.metadata && q.dirs@ == dirs_without(p.dirs@, t.last()),
                                    None => false,
                                }
                            },
                        },
                    }
                }
            }),
    {
        let comps = self.locate(&path);
        if comps.len() == 0 {
            return Err(FsError::InvalidPath(String::from_str("Cannot remove root")));
        }
        let (parent, name) = self.split_target(&path);
        assert(views(parent@).subrange(0, parent@.len() as int) =~= views(parent@));
        match dir_ref_at(&self.root, &parent, 0) {
            None => return Err(not_found("Directory", name.as_str())),
            Some(d) => match d.dir_index(name.as_str()) {
                None => return Err(not_found("Directory", name.as_str())),
                Some(k) => {
                    if d.dirs[k].files.len() > 0 || d.dirs[k].dirs.len() > 0 {
                        let mut msg = String::from_str("Directory ");
                        msg.append(name.as_str());
                        msg.append(" is not empty");
                        return Err(FsError::AlreadyExists(msg));
                    }
                },
            },
        }
        let d = dir_mut_at(&mut self.root, &parent, 0);
        d.remove_dirs_named(name.as_str());
        Ok(())
    }

    /// Sets the permission mode of the file, or else the directory, where
    /// `path` resolves.
    pub fn chmod(&mut self, path: VirtPath, mode: u16) -> (r: Result<(), FsError>)
        ensures
            final(self).cwd_view() == old(self).cwd_view(),
            meta_change_outcome(
                old(self).root_view(),
                final(self).root_view(),
                old(self).target_comps(path),
                r,
                |a: VirtMetadata, b: VirtMetadata| mode_changed(a, b, mode),
            ),
    {
        let comps = self.locate(&path);
        if comps.len() == 0 {
            return Err(FsError::InvalidPath(String::from_str("Empty path")));
        }
        let (parent, name) = self.split_target(&path);
        assert(views(parent@).subrange(0, parent@.len() as int) =~= views(parent@));
        let (fk, dk) = match dir_ref_at(&self.root, &parent, 0) {
            None => return Err(not_found("Directory", name.as_str())),
            Some(d) => (d.file_index(name.as_str()), d.dir_index(name.as_str())),
        };
        if fk.is_none() && dk.is_none() {
            return Err(not_found("Entry", name.as_str()));
        }
        let d = dir_mut_at(&mut self.root, &parent, 0);
        match fk {
            Some(k) => {
                let f = d.file_at_mut(k);
                f.metadata.permissions.mode = mode;
                f.metadata.modified = now();
            },
            None => {
                let c = d.dir_at_mut(dk.unwrap());
                c.metadata.permissions.mode = mode;
                c.metadata.modified = now();
            },
        }
        Ok(())
    }

    /// Sets the owner and group of the file, or else the directory, where
    /// `path` resolves.
    pub fn chown(&mut self, path: VirtPath, owner: &str, group: &str) -> (r: Result<(), FsError>)
        ensures
            final(self).cwd_view() == old(self).cwd_view(),
            meta_change_outcome(
                old(self).root_view(),
                final(self).root_view(),
                old(self).target_comps(path),
                r,
                |a: VirtMetadata, b: VirtMetadata| owner_changed(a, b, owner@, group@),
            ),
    {
        let comps = self.locate(&path);
        if comps.len() == 0 {
            return Err(FsError::InvalidPath(String::from_str("Empty path")));
        }
        let (parent, name) = self.split_target(&path);
        assert(views(parent@).subrange(0, parent@.len() as int) =~= views(parent@));
        let (fk, dk) = match dir_ref_at(&self.root, &parent, 0) {
            None => return Err(not_found("Directory", name.as_str())),
            Some(d) => (d.file_index(name.as_str()), d.dir_index(name.as_str())),
        };
        if fk.is_none() && dk.is_none() {
            return Err(not_found("Entry", name.as_str()));
        }
        let d = dir_mut_at(&mut self.root, &parent, 0);
        match fk {
            Some(k) => {
                let f = d.file_at_mut(k);
                f.metadata.owner = String::from_str(owner);
                f.metadata.group = String::from_str(group);
                f.metadata.modified = now();
            },
            None => {
                let c = d.dir_at_mut(dk.unwrap());
                c.metadata.owner = String::from_str(owner);
                c.metadata.group = String::from_str(group);
                c.metadata.modified = now();
            },
        }
        Ok(())
    }
}

proof fn lemma_render_not_root(parts: Seq<Seq<char>>)
    requires
        parts.len() > 0,
        crate::paths::well_formed_parts(parts),
    ensures
        render(true, parts) != seq!['/'],
        crate::paths::join_parts(parts).len() > 0,
    decreases parts.len(),
{
    assert(parts[0].len() > 0);
    if parts.len() > 1 {
        assert(crate::paths::join_parts(parts) == crate::paths::join_parts(parts.drop_last())
            + seq!['/'] + parts.last());
    }
    assert(render(true, parts).len() > 1);
}

impl VirtFS {
    /// Creates the directory where `path` resolves together with every
    /// missing directory above it; directories already there are kept.
    pub fn mkdir(&mut self, path: VirtPath) -> (r: Result<(), FsError>)
        ensures
            r is Ok,
            dir_at(final(self).root_view(), old(self).target_comps(path)) is Some,
            final(self).cwd_view() == old(self).cwd_view(),
    {
        let comps = self.locate(&path);
        let ghost t = views(comps@);
        proof {
            lemma_segments_well_formed(self.resolved_view(path));
        }
        let mut prefix: Vec<String> = Vec::new();
        let mut i: usize = 0;
        assert(views(prefix@) =~= t.subrange(0, 0));
        while i < comps.len()
            invariant
                i <= comps@.len(),
                t == views(comps@),
                crate::paths::well_formed_parts(t),
                views(prefix@) == t.subrange(0, i as int),
                dir_at(self.root, views(prefix@)) is Some,
                self.current_dir == old(self).current_dir,
            decreases comps@.len() - i,
        {
            let name = comps[i].as_str();
            assert(views(prefix@).subrange(0, prefix@.len() as int) =~= views(prefix@));
            let found = match dir_ref_at(&self.root, &prefix, 0) {
                Some(d) => d.dir_index(name).is_some(),
                None => false,
            };
            let ghost next_parts = t.subrange(0, i + 1);
            if !found {
                let mut next = clone_strings(&prefix);
                let owned = String::from_str(name);
                proof {
                    crate::paths::lemma_views_push(next@, owned);
                }
                next.push(owned);
                assert(views(next@) =~= next_parts);
                let text = render_path(true, &next);
                proof {
                    assert(crate::paths::well_formed_parts(next_parts)) by {
                        assert forall|k: int| 0 <= k < next_parts.len() implies #[trigger] next_parts[k].len() > 0
                            && forall|j: int| 0 <= j < next_parts[k].len() ==> next_parts[k][j] != '/' by {
                            assert(next_parts[k] == t[k]);
                        }
                    }
                    lemma_segments_render(next_parts);
                    lemma_render_not_root(next_parts);
                    assert(next_parts.last() == name@);
                }
                let new_dir = VirtDir {
                    path: absolute(text.as_str()),
                    files: Vec::new(),
                    dirs: Vec::new(),
                    metadata: VirtMetadata::new(0o755),
                };
                assert(dir_name(new_dir) == name@);
                let ghost p = dir_at(self.root, views(prefix@))->0;
                let d = dir_mut_at(&mut self.root, &prefix, 0);
                d.dirs.push(new_dir);
                proof {
                    assert(dir_index_of(p.dirs@, name@) is None);
                    assert forall|j: int| 0 <= j < p.dirs@.len() implies dir_name(#[trigger] d.dirs@[j]) != name@ by {
                        assert(d.dirs@[j] == p.dirs@[j]);
                        if dir_name(p.dirs@[j]) == name@ {
                            lemma_first_dir_exists(p.dirs@, name@, j);
                        }
                    }
                    assert(first_dir_named(d.dirs@, name@, p.dirs@.len() as int));
                    lemma_dir_index_of(d.dirs@, name@, p.dirs@.len() as int);
                }
            }
            proof {
                lemma_dir_at_push(self.root, views(prefix@), name@);
                let q = dir_at(self.root, views(prefix@))->0;
                let k = dir_index_of(q.dirs@, name@)->0;
                assert(seq![name@].drop_first() =~= Seq::<Seq<char>>::empty());
                assert(dir_at(q.dirs@[k], Seq::<Seq<char>>::empty()) is Some);
                assert(dir_at(q, seq![name@]) is Some);
            }
            let owned = String::from_str(name);
            proof {
                crate::paths::lemma_views_push(prefix@, owned);
            }
            prefix.push(owned);
            assert(views(prefix@) =~= t.subrange(0, i + 1));
            i = i + 1;
        }
        assert(t.subrange(0, comps@.len() as int) =~= t);
        Ok(())
    }
}

/// A position to move a file's cursor to.
pub enum SeekFrom {
    /// That many bytes from the start.
    Start(u64),
    /// That many bytes from the end.
    End(i64),
    /// That many bytes from the cursor.
    Current(i64),
}

/// Relies on `std::io::Error::new` with `ErrorKind::InvalidInput`.
#[verifier::external_body]
fn invalid_input_error(msg: &str) -> std::io::Error {
    std::io::Error::new(std::io::ErrorKind::InvalidInput, msg)
}

/// How many bytes a read of at most `want` bytes from `cursor` takes.
pub open spec fn read_len(content: Seq<u8>, cursor: int, want: int) -> int {
    if cursor >= content.len() {
        0
    } else if content.len() - cursor < want {
        content.len() - cursor
    } else {
        want
    }
}

/// The content after writing `buf` at `cursor`: zeros fill any gap past
/// the end, and bytes past the written ones stay.
pub open spec fn written(content: Seq<u8>, cursor: int, buf: Seq<u8>) -> Seq<u8> {
    let padded = if cursor > content.len() {
        content + Seq::new((cursor - content.len()) as nat, |i: int| 0u8)
    } else {
        content
    };
    let end = cursor + buf.len();
    padded.subrange(0, cursor) + buf + if end < padded.len() {
        padded.subrange(end, padded.len() as int)
    } else {
        Seq::empty()
    }
}

/// Where a seek moves the cursor, before checking that it is not negative.
pub open spec fn seek_target(pos: SeekFrom, cursor: int, len: int) -> int {
    match pos {
        SeekFrom::Start(o) => o as int,
        SeekFrom::Current(o) => cursor + o,
        SeekFrom::End(o) => len + o,
    }
}

impl VirtFile {
    /// Reads from the cursor into `buf`, as many bytes as both hold, and
    /// moves the cursor past them. Returns how many were read.
    pub fn read(&mut self, buf: &mut [u8]) -> (r: usize)
        ensures
            r == read_len(old(self).content@, old(self).cursor as int, old(buf)@.len() as int),
            final(buf)@.len() == old(buf)@.len(),
            forall|j: int| 0 <= j < r ==> final(buf)@[j] == old(self).content@[old(self).cursor + j],
            final(buf)@.subrange(r as int, old(buf)@.len() as int) == old(buf)@.subrange(
                r as int,
                old(buf)@.len() as int,
            ),
            final(self).cursor == old(self).cursor + r,
            final(self).content == old(self).content,
            final(self).path == old(self).path,
            final(self).metadata == old(self).metadata,
    {
        let len = self.content.len();
        if self.cursor >= len {
            return 0;
        }
        let available = len - self.cursor;
        let to_read = if available < buf.len() {
            available
        } else {
            buf.len()
        };
        let start = self.cursor;
        let mut i: usize = 0;
        while i < to_read
            invariant
                i <= to_read,
                to_read <= buf@.len(),
                len == self.content@.len(),
                start + to_read <= len,
                buf@.len() == old(buf)@.len(),
                forall|j: int| 0 <= j < i ==> buf@[j] == self.content@[start + j],
                forall|j: int| i <= j < buf@.len() ==> buf@[j] == old(buf)@[j],
            decreases to_read - i,
        {
            buf[i] = self.content[start + i];
            i = i + 1;
        }
        assert(buf@.subrange(to_read as int, buf@.len() as int) =~= old(buf)@.subrange(
            to_read as int,
            buf@.len() as int,
        ));
        self.cursor = start + to_read;
        to_read
    }

    /// Writes `buf` at the cursor, filling any gap past the end with zeros,
    /// and moves the cursor past it. Returns how many bytes were written.
    pub fn write(&mut self, buf: &[u8]) -> (r: usize)
        requires
            old(self).cursor + buf@.len() <= usize::MAX,
        ensures
            r == buf@.len(),
            final(self).content@ == written(old(self).content@, old(self).cursor as int, buf@),
            final(self).cursor == old(self).cursor + buf@.len(),
            final(self).path == old(self).path,
            final(self).metadata.permissions == old(self).metadata.permissions,
            final(self).metadata.owner == old(self).metadata.owner,
            final(self).metadata.group == old(self).metadata.group,
            final(self).metadata.created == old(self).metadata.created,
    {
        let cursor = self.cursor;
        let len = self.content.len();
        let end = cursor + buf.len();
        let ghost expected = written(self.content@, cursor as int, buf@);
        let mut out: Vec<u8> = Vec::new();
        let mut i: usize = 0;
        while i < cursor
            invariant
                i <= cursor,
                len == self.content@.len(),
                cursor == old(self).cursor,
                self.content == old(self).content,
                out@.len() == i,
                forall|j: int| 0 <= j < i ==> out@[j] == (if j < len { self.content@[j] } else { 0u8 }),
            decreases cursor - i,
        {
            if i < len {
                out.push(self.content[i]);
            } else {
                out.push(0u8);
            }
            i = i + 1;
        }
        let mut k: usize = 0;
        while k < buf.len()
            invariant
                k <= buf@.len(),
                out@.len() == cursor + k,
                forall|j: int| 0 <= j < cursor ==> out@[j] == (if j < len { self.content@[j] } else { 0u8 }),
                forall|j: int| 0 <= j < k ==> out@[cursor + j] == buf@[j],
            decreases buf@.len() - k,
        {
            out.push(buf[k]);
            k = k + 1;
        }
        let mut m: usize = end;
        while m < len
            invariant
                end <= m,
                m <= len || m == end,
                end == cursor + buf@.len(),
                len == self.content@.len(),
                out@.len() == m,
                forall|j: int| 0 <= j < cursor ==> out@[j] == (if j < len { self.content@[j] } else { 0u8 }),
                forall|j: int| 0 <= j < buf@.len() ==> out@[cursor + j] == buf@[j],
                forall|j: int| end <= j < out@.len() ==> out@[j] == self.content@[j],
            decreases len - m,
        {
            out.push(self.content[m]);
            m = m + 1;
        }
        assert(out@ =~= expected);
        self.content = out;
        self.cursor = end;
        self.metadata.modified = now();
        buf.len()
    }

    /// Moves the cursor. A position before the start, or past what a cursor
    /// holds, fails with `InvalidInput`.
    pub fn seek(&mut self, pos: SeekFrom) -> (r: Result<u64, std::io::Error>)
        requires
            old(self).cursor <= i64::MAX,
            old(self).content@.len() <= i64::MAX,
            pos matches SeekFrom::Current(o) ==> i64::MIN <= old(self).cursor + o <= i64::MAX,
            pos matches SeekFrom::End(o) ==> i64::MIN <= old(self).content@.len() + o <= i64::MAX,
        ensures
            ({
                let t = seek_target(pos, old(self).cursor as int, old(self).content@.len() as int);
                if 0 <= t <= i64::MAX && t <= usize::MAX {
                    r matches Ok(n) && n == t && final(self).cursor == t
                } else {
                    r is Err && final(self).cursor == old(self).cursor
                }
            }),
            final(self).content == old(self).content,
            final(self).path == old(self).path,
            final(self).metadata == old(self).metadata,
    {
        let target: i64 = match pos {
            SeekFrom::Start(o) => {
                if o > i64::MAX as u64 {
                    return Err(invalid_input_error("Invalid seek"));
                }
                o as i64
            },
            SeekFrom::Current(o) => self.cursor as i64 + o,
            SeekFrom::End(o) => self.content.len() as i64 + o,
        };
        if target < 0 || target as u64 > usize::MAX as u64 {
            return Err(invalid_input_error("Invalid seek"));
        }
        self.cursor = target as usize;
        Ok(self.cursor as u64)
    }
}

/// Reading back what was just written, from where the write started and
/// with room for all of it, yields exactly the written bytes.
pub proof fn lemma_write_then_read(content: Seq<u8>, cursor: int, buf: Seq<u8>)
    requires
        cursor >= 0,
    ensures
        read_len(written(content, cursor, buf), cursor, buf.len() as int) == buf.len(),
        written(content, cursor, buf).subrange(cursor, cursor + buf.len()) == buf,
{
    let w = written(content, cursor, buf);
    let padded = if cursor > content.len() {
        content + Seq::new((cursor - content.len()) as nat, |i: int| 0u8)
    } else {
        content
    };
    assert(padded.len() >= cursor);
    assert(w.len() >= cursor + buf.len());
    assert(w.subrange(cursor, cursor + buf.len()) =~= buf);
}

/// The text of a child named `name` of a directory whose path is `parent`.
pub open spec fn child_text(parent: Seq<char>, name: Seq<char>) -> Seq<char> {
    if parent == seq!['/'] {
        seq!['/'] + name
    } else {
        parent + seq!['/'] + name
    }
}

/// The last segment of a path, if it has one.
pub open spec fn last_segment(p: VirtPath) -> Option<Seq<char>> {
    let segs = segments(vtext(p));
    if segs.len() > 0 {
        Some(segs.last())
    } else {
        None
    }
}

/// Where an entry at `p` goes when its directory moves to `parent`: under
/// it, by its last segment; an entry without one stays.
pub open spec fn moved_path(parent: Seq<char>, p: VirtPath) -> (bool, Seq<u8>) {
    match last_segment(p) {
        Some(n) => (true, encode_utf8(child_text(parent, n))),
        None => p@,
    }
}

/// `b` is the tree `a` moved to the path `at`: every path below is
/// rebuilt under it, and nothing else changes.
pub open spec fn moved_tree(a: VirtDir, b: VirtDir, at: (bool, Seq<u8>)) -> bool
    decreases a,
{
    &&& b.path@ == at
    &&& b.metadata == a.metadata
    &&& b.files@.len() == a.files@.len()
    &&& b.dirs@.len() == a.dirs@.len()
    &&& forall|i: int|
        0 <= i < a.files@.len() ==> {
            &&& b.files@[i].content == a.files@[i].content
            &&& b.files@[i].metadata == a.files@[i].metadata
            &&& b.files@[i].cursor == a.files@[i].cursor
            &&& b.files@[i].path@ == moved_path(lossy_text(at.1), a.files@[i].path)
        }
    &&& forall|i: int|
        0 <= i < a.dirs@.len() ==> if last_segment(#[trigger] a.dirs@[i].path) is Some {
            moved_tree(a.dirs@[i], b.dirs@[i], moved_path(lossy_text(at.1), a.dirs@[i].path))
        } else {
            b.dirs@[i] == a.dirs@[i]
        }
}

fn child_text_of(parent: &str, name: &str) -> (r: String)
    ensures
        r@ == child_text(parent@, name@),
{
    proof {
        reveal_strlit("/");
        assert("/"@ =~= seq!['/']);
    }
    let mut out = if same_text(parent, "/") {
        String::from_str("/")
    } else {
        let mut t = String::from_str(parent);
        t.append("/");
        t
    };
    out.append(name);
    out
}

fn last_segment_of(p: &VirtPath) -> (r: Option<String>)
    ensures
        match r {
            Some(n) => last_segment(*p) == Some(n@),
            None => last_segment(*p) is None,
        },
{
    let full = path_to_str(p);
    let comps = get_components(full.as_str());
    if comps.len() == 0 {
        return None;
    }
    assert(views(comps@).last() == comps@[comps@.len() - 1]@);
    Some(comps[comps.len() - 1].clone())
}

impl VirtDir {
    /// Moves the directory to `new_path`: every path below it is rebuilt
    /// under the new one, each entry keeping its last segment.
    pub fn update_path(&mut self, new_path: VirtPath)
        ensures
            moved_tree(*old(self), *final(self), new_path@),
        decreases *old(self),
    {
        let text = path_to_str(&new_path);
        self.path = new_path;
        let mut i: usize = 0;
        while i < self.files.len()
            invariant
                i <= self.files@.len(),
                self.files@.len() == old(self).files@.len(),
                self.path@ == new_path@,
                text@ == lossy_text(new_path@.1),
                self.metadata == old(self).metadata,
                self.dirs == old(self).dirs,
                forall|k: int| i <= k < self.files@.len() ==> self.files@[k] == old(self).files@[k],
                forall|k: int|
                    0 <= k < i ==> {
                        &&& self.files@[k].content == old(self).files@[k].content
                        &&& self.files@[k].metadata == old(self).files@[k].metadata
                        &&& self.files@[k].cursor == old(self).files@[k].cursor
                        &&& self.files@[k].path@ == moved_path(text@, old(self).files@[k].path)
                    },
            decreases self.files@.len() - i,
        {
            let f = self.file_at_mut(i);
            match last_segment_of(&f.path) {
                Some(name) => {
                    let t = child_text_of(text.as_str(), name.as_str());
                    f.path = absolute(t.as_str());
                },
                None => {},
            }
            i = i + 1;
        }
        let mut j: usize = 0;
        while j < self.dirs.len()
            invariant
                j <= self.dirs@.len(),
                self.dirs@.len() == old(self).dirs@.len(),
                self.path@ == new_path@,
                text@ == lossy_text(new_path@.1),
                self.metadata == old(self).metadata,
                self.files@.len() == old(self).files@.len(),
                forall|k: int|
                    0 <= k < self.files@.len() ==> {
                        &&& self.files@[k].content == old(self).files@[k].content
                        &&& self.files@[k].metadata == old(self).files@[k].metadata
                        &&& self.files@[k].cursor == old(self).files@[k].cursor
                        &&& self.files@[k].path@ == moved_path(text@, old(self).files@[k].path)
                    },
                forall|k: int| j <= k < self.dirs@.len() ==> self.dirs@[k] == old(self).dirs@[k],
                forall|k: int|
                    0 <= k < j ==> if last_segment(#[trigger] old(self).dirs@[k].path) is Some {
                        moved_tree(
                            old(self).dirs@[k],
                            self.dirs@[k],
                            moved_path(text@, old(self).dirs@[k].path),
                        )
                    } else {
                        self.dirs@[k] == old(self).dirs@[k]
                    },
            decreases self.dirs@.len() - j,
        {
            let d = self.dir_at_mut(j);
            match last_segment_of(&d.path) {
                Some(name) => {
                    let t = child_text_of(text.as_str(), name.as_str());
                    d.update_path(absolute(t.as_str()));
                },
                None => {},
            }
            j = j + 1;
        }
    }
}

/// `g` is the file `f` moved to the path `at`.
pub open spec fn moved_file(f: VirtFile, g: VirtFile, at: (bool, Seq<u8>)) -> bool {
    g.path@ == at && g.content == f.content && g.metadata == f.metadata && g.cursor == f.cursor
}

impl VirtFS {
    /// Moves the file, or else the directory, where `src` resolves to where
    /// `dst` resolves, rebuilding the paths below a directory. The entry
    /// leaves its directory first; if then the directory `dst` names is
    /// missing, the move fails with `NotFound` and the entry is gone.
    pub fn rename(&mut self, src: VirtPath, dst: VirtPath) -> (r: Result<(), FsError>)
        ensures
            final(self).cwd_view() == old(self).cwd_view(),
            ({
                let s = old(self).target_comps(src);
                let d = old(self).target_comps(dst);
                let at = (true, encode_utf8(old(self).resolved_view(dst)));
                if s.len() == 0 || d.len() == 0 {
                    r matches Err(e) && e is InvalidPath && *final(self) == *old(self)
                } else {
                    match dir_at(old(self).root_view(), s.drop_last()) {
                        None => r matches Err(e) && e is NotFound && *final(self) == *old(self),
                        Some(p) => match file_index_of(p.files@, s.last()) {
                            Some(k) => match r {
                                Ok(_) => match dir_at(final(self).root_view(), d.drop_last()) {
                                    Some(q) => q.files@.len() > 0 && moved_file(p.files@[k], q.files@.last(), at),
                                    None => false,
                                },
                                Err(e) => e is NotFound && match dir_at(final(self).root_view(), s.drop_last()) {
                                    Some(q) => q.files@ == p.files@.remove(k),
                                    None => false,
                                },
                            },
                            None => match dir_index_of(p.dirs@, s.last()) {
                                Some(k) => match r {
                                    Ok(_) => match dir_at(final(self).root_view(), d.drop_last()) {
                                        Some(q) => q.dirs@.len() > 0 && moved_tree(p.dirs@[k], q.dirs@.last(), at),
                                        None => false,
                                    },
                                    Err(e) => e is NotFound && match dir_at(final(self).root_view(), s.drop_last()) {
                                        Some(q) => q.dirs@ == p.dirs@.remove(k),
                                        None => false,
                                    },
                                },
                                None => r matches Err(e) && e is NotFound && *final(self) == *old(self),
                            },
                        },
                    }
                }
            }),
    {
        let src_comps = self.locate(&src);
        let dst_comps = self.locate(&dst);
        if src_comps.len() == 0 || dst_comps.len() == 0 {
            return Err(FsError::InvalidPath(String::from_str("Empty path")));
        }
        let dst_text = self.resolve_path(&dst);
        let (sparent, sname) = self.split_target(&src);
        let (dparent, dname) = self.split_target(&dst);
        assert(views(sparent@).subrange(0, sparent@.len() as int) =~= views(sparent@));
        assert(views(dparent@).subrange(0, dparent@.len() as int) =~= views(dparent@));
        let (fk, dk) = match dir_ref_at(&self.root, &sparent, 0) {
            None => return Err(not_found("Directory", sname.as_str())),
            Some(p) => (p.file_index(sname.as_str()), p.dir_index(sname.as_str())),
        };
        if fk.is_none() && dk.is_none() {
            return Err(FsError::NotFound(String::from_str("Source entry not found")));
        }
        match fk {
            Some(k) => {
                let sp = dir_mut_at(&mut self.root, &sparent, 0);
                let mut file = sp.take_file(k);
                file.path = absolute(dst_text.as_str());
                if dir_ref_at(&self.root, &dparent, 0).is_none() {
                    return Err(not_found("Directory", dname.as_str()));
                }
                let dp = dir_mut_at(&mut self.root, &dparent, 0);
                dp.insert_file(file);
                Ok(())
            },
            None => {
                let sp = dir_mut_at(&mut self.root, &sparent, 0);
                let mut dir = sp.take_dir(dk.unwrap());
                dir.update_path(absolute(dst_text.as_str()));
                if dir_ref_at(&self.root, &dparent, 0).is_none() {
                    return Err(not_found("Directory", dname.as_str()));
                }
                let dp = dir_mut_at(&mut self.root, &dparent, 0);
                dp.dirs.push(dir);
                Ok(())
            },
        }
    }
}

} // verus!
