use vstd::prelude::*;
use vstd::string::*;
use crate::create::{CreationPlan, opt_view};
use crate::error::TempError;
use crate::paths::{
    normalized, is_bare, parent_of, append_path, normalize_path, is_bare_name, parent_path,
    append_to,
};

verus! {

/// A filesystem removal that disposal asks for.
#[derive(Debug)]
pub enum Removal {
    /// Remove the file at this path.
    File(String),
    /// Remove the directory at this path with everything below it.
    Tree(String),
}

/// A removal as a value: whether a whole tree goes, and its path.
pub open spec fn removal_view(r: Removal) -> (bool, Seq<char>) {
    match r {
        Removal::File(p) => (false, p@),
        Removal::Tree(p) => (true, p@),
    }
}

/// The removal that disposing of a resource at `path` asks for: the tree of
/// the created-parent marker where one was recorded, else the path alone.
pub open spec fn disposal_of(path: Seq<char>, created_parent: Option<Seq<char>>, tree: bool) -> (
    bool,
    Seq<char>,
) {
    match created_parent {
        Some(d) => (true, d),
        None => (tree, path),
    }
}

/// Relies on `std::io::Error::from` on `ErrorKind::NotFound`.
#[verifier::external_body]
fn not_found_error() -> std::io::Error {
    std::io::Error::from(std::io::ErrorKind::NotFound)
}

/// Where a rename sends a resource now at `old`. The new location is
/// normalized first; a bare name, without separators, stays in the
/// directory that holds `old`.
pub open spec fn rename_destination(old: Seq<char>, new_path: Seq<char>, cwd: Seq<char>) -> Option<
    Seq<char>,
> {
    let n = normalized(new_path, cwd);
    if is_bare(n) {
        match parent_of(old) {
            Some(p) => Some(append_path(p, n)),
            None => None,
        }
    } else {
        Some(n)
    }
}

/// Where a rename relative to the working directory sends a resource: a
/// bare name goes into `cwd`.
pub open spec fn rename_here_destination(new_path: Seq<char>, cwd: Seq<char>) -> Seq<char> {
    let n = normalized(new_path, cwd);
    if is_bare(n) {
        append_path(cwd, n)
    } else {
        n
    }
}

#[derive(Debug)]
enum Slot<H> {
    Active { path: String, handle: H },
    Vacant,
}

/// A file whose lifetime is bound to this value: while it is active, it
/// owns a path and an open handle `H` together, and disposing of it removes
/// the file. Each disposal operation ends that responsibility exactly once.
#[derive(Debug)]
pub struct TempFile<H> {
    slot: Slot<H>,
    created_parent: Option<String>,
}

impl<H> TempFile<H> {
    /// The path and handle while active, neither once disposed of.
    pub closed spec fn state(&self) -> Option<(Seq<char>, H)> {
        match self.slot {
            Slot::Active { path, handle } => Some((path@, handle)),
            Slot::Vacant => None,
        }
    }

    /// The outermost directory made when the file was created, if any.
    pub closed spec fn created_parent_view(&self) -> Option<Seq<char>> {
        opt_view(self.created_parent)
    }

    pub open spec fn active(&self) -> bool {
        self.state() is Some
    }

    pub open spec fn path_view(&self) -> Option<Seq<char>> {
        match self.state() {
            Some((p, _)) => Some(p),
            None => None,
        }
    }

    /// What dropping the file removes: nothing once it is disposed of.
    pub open spec fn release_view(&self) -> Option<(bool, Seq<char>)> {
        match self.state() {
            Some((p, _)) => Some(disposal_of(p, self.created_parent_view(), false)),
            None => None,
        }
    }

    /// Takes charge of a file just created by `plan` and opened as `handle`.
    pub fn from_created(plan: &CreationPlan, handle: H) -> (r: Self)
        ensures
            r.state() == Some((plan.target@, handle)),
            r.created_parent_view() == opt_view(plan.created_parent),
    {
        TempFile {
            slot: Slot::Active { path: plan.target.clone(), handle },
            created_parent: plan.created_parent.clone(),
        }
    }

    /// Takes charge of an open handle and its path, provided the two were
    /// found to be the same resource (`same_resource`); otherwise fails with
    /// `InvalidFileOrPath`.
    pub fn from_fp(handle: H, path: &str, same_resource: bool) -> (r: Result<Self, TempError>)
        ensures
            same_resource == r.is_ok(),
            match r {
                Ok(t) => t.state() == Some((path@, handle)) && t.created_parent_view() is None,
                Err(e) => e is InvalidFileOrPath,
            },
    {
        if !same_resource {
            return Err(TempError::InvalidFileOrPath);
        }
        Ok(TempFile { slot: Slot::Active { path: String::from_str(path), handle }, created_parent: None })
    }

    fn take(&mut self) -> (r: Option<(String, H)>)
        ensures
            match r {
                Some((p, h)) => old(self).state() == Some((p@, h)),
                None => old(self).state() is None,
            },
            final(self).state() is None,
            final(self).created_parent_view() == old(self).created_parent_view(),
    {
        let mut slot = Slot::Vacant;
        std::mem::swap(&mut self.slot, &mut slot);
        match slot {
            Slot::Active { path, handle } => Some((path, handle)),
            Slot::Vacant => None,
        }
    }

    /// Hands the open handle to the caller and gives up the path: the file
    /// stays. Fails with `FileIsNone` once disposed of.
    pub fn persist(&mut self) -> (r: Result<H, TempError>)
        ensures
            match old(self).state() {
                Some((_, h)) => r == Ok::<H, TempError>(h),
                None => r matches Err(e) && e is FileIsNone,
            },
            final(self).state() is None,
            final(self).created_parent_view() == old(self).created_parent_view(),
    {
        match self.take() {
            Some((_, h)) => Ok(h),
            None => Err(TempError::FileIsNone),
        }
    }

    /// Consumes the file and returns its handle; the file stays.
    pub fn into_inner(self) -> (r: Result<H, TempError>)
        ensures
            match self.state() {
                Some((_, h)) => r == Ok::<H, TempError>(h),
                None => r matches Err(e) && e is FileIsNone,
            },
    {
        let mut s = self;
        s.persist()
    }

    /// Gives up the path so that the file is not removed; to be called once
    /// pending writes are flushed. Fails with `FileIsNone` once disposed of.
    pub fn disarm(&mut self) -> (r: Result<(), TempError>)
        ensures
            r.is_ok() == old(self).active(),
            r matches Err(e) ==> e is FileIsNone,
            final(self).state() is None,
            final(self).created_parent_view() == old(self).created_parent_view(),
    {
        match self.take() {
            Some(_) => Ok(()),
            None => Err(TempError::FileIsNone),
        }
    }

    /// Gives up both the path and the handle, closing it; to be called once
    /// pending writes are flushed. Fails with `FileIsNone` once disposed of.
    pub fn close(&mut self) -> (r: Result<(), TempError>)
        ensures
            r.is_ok() == old(self).active(),
            r matches Err(e) ==> e is FileIsNone,
            final(self).state() is None,
            final(self).created_parent_view() == old(self).created_parent_view(),
    {
        match self.take() {
            Some(_) => Ok(()),
            None => Err(TempError::FileIsNone),
        }
    }

    /// Records that the file at `path()` was removed; to be called once
    /// pending writes are flushed and the removal succeeded. Fails with
    /// `FileIsNone` once disposed of.
    pub fn delete(&mut self) -> (r: Result<(), TempError>)
        ensures
            r.is_ok() == old(self).active(),
            r matches Err(e) ==> e is FileIsNone,
            final(self).state() is None,
            final(self).created_parent_view() == old(self).created_parent_view(),
    {
        match self.take() {
            Some(_) => Ok(()),
            None => Err(TempError::FileIsNone),
        }
    }

    /// What dropping the file removes, ending the responsibility: the tree
    /// of the created-parent marker where one was recorded, else the file;
    /// nothing once disposed of.
    pub fn release(&mut self) -> (r: Option<Removal>)
        ensures
            match r {
                Some(x) => old(self).release_view() == Some(removal_view(x)),
                None => old(self).release_view() is None,
            },
            final(self).state() is None,
    {
        match self.take() {
            Some((p, _)) => match &self.created_parent {
                Some(d) => Some(Removal::Tree(d.clone())),
                None => Some(Removal::File(p)),
            },
            None => None,
        }
    }

    /// The handle, while active.
    pub fn file(&self) -> (r: Result<&H, TempError>)
        ensures
            match self.state() {
                Some((_, h)) => r == Ok::<&H, TempError>(&h),
                None => r matches Err(e) && e is FileIsNone,
            },
    {
        match &self.slot {
            Slot::Active { handle, .. } => Ok(handle),
            Slot::Vacant => Err(TempError::FileIsNone),
        }
    }

    /// The handle for mutation, while active.
    pub fn file_mut(&mut self) -> (r: Result<&mut H, TempError>)
        ensures
            match old(self).state() {
                Some((p, h)) => match r {
                    Ok(m) => *m == h && final(self).state() == Some((p, *final(m))),
                    Err(_) => false,
                },
                None => r matches Err(e) && e is FileIsNone && final(self).state() is None,
            },
            final(self).created_parent_view() == old(self).created_parent_view(),
    {
        match &mut self.slot {
            Slot::Active { handle, .. } => Ok(handle),
            Slot::Vacant => Err(TempError::FileIsNone),
        }
    }

    /// The path, while active.
    pub fn path(&self) -> (r: Option<&str>)
        ensures
            match r {
                Some(p) => self.path_view() == Some(p@),
                None => self.path_view() is None,
            },
    {
        match &self.slot {
            Slot::Active { path, .. } => Some(path.as_str()),
            Slot::Vacant => None,
        }
    }

    /// Whether the file is still in charge of its path.
    pub fn is_active(&self) -> (r: bool)
        ensures
            r == self.active(),
    {
        match &self.slot {
            Slot::Active { .. } => true,
            Slot::Vacant => false,
        }
    }

    /// Where `rename(new_path)` moves the file, or `None` once disposed of,
    /// when rename does nothing. `new_path` is normalized against `cwd`; a
    /// bare name stays in the file's directory. A file with no directory
    /// above it cannot take a bare name.
    pub fn rename_target(&self, new_path: &str, cwd: &str) -> (r: Result<Option<String>, TempError>)
        ensures
            match self.path_view() {
                None => r matches Ok(None),
                Some(old_path) => match rename_destination(old_path, new_path@, cwd@) {
                    Some(d) => r matches Ok(Some(x)) && x@ == d,
                    None => r matches Err(e) && e is IO,
                },
            },
    {
        let n = normalize_path(new_path, cwd);
        let bare = is_bare_name(n.as_str());
        match &self.slot {
            Slot::Vacant => Ok(None),
            Slot::Active { path, .. } => {
                if bare {
                    match parent_path(path.as_str()) {
                        Some(p) => Ok(Some(append_to(p.as_str(), n.as_str()))),
                        None => Err(TempError::IO(not_found_error())),
                    }
                } else {
                    Ok(Some(n))
                }
            },
        }
    }

    /// Where `rename_here(new_path)` moves the file, or `None` once disposed
    /// of: as `rename_target`, but a bare name goes into `cwd`.
    pub fn rename_here_target(&self, new_path: &str, cwd: &str) -> (r: Option<String>)
        ensures
            match self.path_view() {
                None => r is None,
                Some(_) => r matches Some(x) && x@ == rename_here_destination(new_path@, cwd@),
            },
    {
        match &self.slot {
            Slot::Vacant => None,
            Slot::Active { .. } => {
                let n = normalize_path(new_path, cwd);
                if is_bare_name(n.as_str()) {
                    Some(append_to(cwd, n.as_str()))
                } else {
                    Some(n)
                }
            },
        }
    }

    /// Records that the file now lives at `dest`, once it was copied there
    /// and the original removed. Does nothing once disposed of.
    pub fn relocate(&mut self, dest: String)
        ensures
            match old(self).state() {
                Some((_, h)) => final(self).state() == Some((dest@, h)),
                None => final(self).state() is None,
            },
            final(self).created_parent_view() == old(self).created_parent_view(),
    {
        match &mut self.slot {
            Slot::Active { path, .. } => {
                *path = dest;
            },
            Slot::Vacant => {},
        }
    }
}

/// Dropping a file removes what it is in charge of while it is active, and
/// nothing once persisted, disarmed, closed or deleted.
pub proof fn lemma_release_after_disposal<H>(t: TempFile<H>)
    ensures
        t.active() ==> t.release_view() is Some,
        t.active() && t.created_parent_view() is None ==> t.release_view() == Some(
            (false, t.path_view()->0),
        ),
        t.active() && t.created_parent_view() is Some ==> t.release_view() == Some(
            (true, t.created_parent_view()->0),
        ),
        !t.active() ==> t.release_view() is None,
{
}

/// Renaming to a bare name keeps the file in its directory; renaming to a
/// path with separators moves it to exactly that (normalized) path.
pub proof fn lemma_rename_destination(old: Seq<char>, new_path: Seq<char>, cwd: Seq<char>)
    requires
        parent_of(old) is Some,
    ensures
        is_bare(normalized(new_path, cwd)) ==> rename_destination(old, new_path, cwd) == Some(
            append_path(parent_of(old)->0, normalized(new_path, cwd)),
        ),
        !is_bare(normalized(new_path, cwd)) ==> rename_destination(old, new_path, cwd) == Some(
            normalized(new_path, cwd),
        ),
{
}

/// Renaming an absolutely placed file to a non-empty bare name keeps it in
/// the same directory, under that name as its last segment.
pub proof fn lemma_bare_rename_keeps_directory(old: Seq<char>, new_path: Seq<char>, cwd: Seq<char>)
    requires
        crate::paths::is_rooted(old),
        crate::paths::segments(old).len() > 0,
        is_bare(normalized(new_path, cwd)),
        normalized(new_path, cwd).len() > 0,
    ensures
        rename_destination(old, new_path, cwd) is Some,
        parent_of(rename_destination(old, new_path, cwd)->0) == parent_of(old),
        crate::paths::segments(rename_destination(old, new_path, cwd)->0).last() == normalized(
            new_path,
            cwd,
        ),
{
    let n = normalized(new_path, cwd);
    let segs = crate::paths::segments(old);
    let ps = segs.drop_last();
    crate::paths::lemma_segments_well_formed(old);
    assert(crate::paths::well_formed_parts(ps)) by {
        assert forall|i: int| 0 <= i < ps.len() implies #[trigger] ps[i].len() > 0 && forall|j: int|
            0 <= j < ps[i].len() ==> ps[i][j] != '/' by {
            assert(ps[i] == segs[i]);
        }
    }
    crate::paths::lemma_segments_render(ps);
    let t = crate::paths::render(true, ps);
    assert(parent_of(old) == Some(t));
    assert forall|i: int| 0 <= i < n.len() implies n[i] != '/' by {}
    if ps.len() == 0 {
        assert(t =~= seq!['/']);
        let d = t + n;
        assert(d =~= Seq::<char>::empty() + seq!['/'] + n);
        crate::paths::lemma_segments_append(Seq::empty(), n);
        let e = Seq::<char>::empty();
        assert(crate::paths::split_all(e) == seq![e]);
        assert(seq![e].last() == e);
        assert(seq![e].drop_last() =~= Seq::<Seq<char>>::empty());
        assert(crate::paths::nonempty(seq![e]) == crate::paths::nonempty(Seq::<Seq<char>>::empty()));
        assert(crate::paths::segments(e) =~= Seq::<Seq<char>>::empty());
        assert(crate::paths::segments(d) =~= seq![n]);
        assert(seq![n].drop_last() =~= ps);
        assert(crate::paths::is_rooted(d));
    } else {
        assert(ps.last().len() > 0);
        assert(crate::paths::join_parts(ps).len() > 0) by {
            if ps.len() > 1 {
                assert(crate::paths::join_parts(ps) == crate::paths::join_parts(ps.drop_last())
                    + seq!['/'] + ps.last());
            }
        }
        assert(t.last() != '/') by {
            if ps.len() == 1 {
                assert(crate::paths::join_parts(ps) == ps[0]);
                assert(t.last() == ps[0].last());
            } else {
                assert(crate::paths::join_parts(ps) == crate::paths::join_parts(ps.drop_last())
                    + seq!['/'] + ps.last());
                assert(t.last() == ps.last().last());
            }
            assert(ps.last().last() == ps.last()[ps.last().len() - 1]);
        }
        let d = t + seq!['/'] + n;
        crate::paths::lemma_segments_append(t, n);
        assert(crate::paths::segments(d) == ps.push(n));
        assert(ps.push(n).drop_last() =~= ps);
        assert(d[0] == '/');
    }
}

} // verus!
