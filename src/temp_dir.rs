use vstd::prelude::*;
use vstd::string::*;
use crate::create::{CreationPlan, opt_view};
use crate::error::TempError;
use crate::paths::{file_name_of, join_path, join, file_name, same_text, views};
use crate::temp_file::{TempFile, Removal, removal_view, disposal_of};

verus! {

#[verifier::external_type_specification]
#[verifier::external_body]
pub struct ExRegex(regex::Regex);

/// Whether `regex::Regex::new` accepts a pattern.
pub uninterp spec fn regex_compiles(pattern: Seq<char>) -> bool;

/// Whether a regex compiled from `pattern` matches somewhere in `haystack`.
pub uninterp spec fn regex_accepts(pattern: Seq<char>, haystack: Seq<char>) -> bool;

/// Relies on `regex::Regex::new`: whether a pattern compiles depends on the
/// pattern alone.
#[verifier::external_body]
fn compile_regex(pattern: &str) -> (r: Result<regex::Regex, regex::Error>)
    ensures
        r.is_ok() == regex_compiles(pattern@),
{
    regex::Regex::new(pattern)
}

/// A compiled match pattern together with the text it was compiled from.
pub struct Pattern {
    re: regex::Regex,
    source: Ghost<Seq<char>>,
}

impl Pattern {
    pub closed spec fn source(&self) -> Seq<char> {
        self.source@
    }

    /// Compiles `pattern`; a malformed one fails with `TempError::Regex`.
    pub fn new(pattern: &str) -> (r: Result<Pattern, TempError>)
        ensures
            r.is_ok() == regex_compiles(pattern@),
            match r {
                Ok(p) => p.source() == pattern@,
                Err(e) => e is Regex,
            },
    {
        match compile_regex(pattern) {
            Ok(re) => Ok(Pattern { re, source: Ghost(pattern@) }),
            Err(e) => Err(TempError::Regex(e)),
        }
    }
}

/// Relies on `regex::Regex::is_match`: whether the regex, compiled from the
/// pattern's source, matches somewhere in `haystack`. A `Pattern` is made
/// only by `Pattern::new`, so its regex is the one compiled from its source.
#[verifier::external_body]
fn pattern_matches(pattern: &Pattern, haystack: &str) -> (r: bool)
    ensures
        r == regex_accepts(pattern.source(), haystack@),
{
    pattern.re.is_match(haystack)
}

/// Relies on `std::io::Error::other`.
#[verifier::external_body]
fn other_error(msg: &str) -> std::io::Error {
    std::io::Error::other(msg)
}

/// The file name a tracked file answers to, while it is active.
pub open spec fn child_name<H>(f: TempFile<H>) -> Option<Seq<char>> {
    match f.path_view() {
        Some(p) => file_name_of(p),
        None => None,
    }
}

/// The files not named `name`, in order.
pub open spec fn kept<H>(fs: Seq<TempFile<H>>, name: Seq<char>) -> Seq<TempFile<H>>
    decreases fs.len(),
{
    if fs.len() == 0 {
        Seq::empty()
    } else if child_name(fs.last()) == Some(name) {
        kept(fs.drop_last(), name)
    } else {
        kept(fs.drop_last(), name).push(fs.last())
    }
}

/// What disposing of each file named `name` removes, in order.
pub open spec fn named_removals<H>(fs: Seq<TempFile<H>>, name: Seq<char>) -> Seq<(bool, Seq<char>)>
    decreases fs.len(),
{
    if fs.len() == 0 {
        Seq::empty()
    } else if child_name(fs.last()) == Some(name) && fs.last().release_view() is Some {
        named_removals(fs.drop_last(), name).push(fs.last().release_view()->0)
    } else {
        named_removals(fs.drop_last(), name)
    }
}

/// What disposing of each file removes, in order.
pub open spec fn all_removals<H>(fs: Seq<TempFile<H>>) -> Seq<(bool, Seq<char>)>
    decreases fs.len(),
{
    if fs.len() == 0 {
        Seq::empty()
    } else if fs.last().release_view() is Some {
        all_removals(fs.drop_last()).push(fs.last().release_view()->0)
    } else {
        all_removals(fs.drop_last())
    }
}

/// The paths of the active files, in order.
pub open spec fn active_paths<H>(fs: Seq<TempFile<H>>) -> Seq<Seq<char>>
    decreases fs.len(),
{
    if fs.len() == 0 {
        Seq::empty()
    } else if fs.last().path_view() is Some {
        active_paths(fs.drop_last()).push(fs.last().path_view()->0)
    } else {
        active_paths(fs.drop_last())
    }
}

/// The files whose name the pattern matches, in order.
pub open spec fn matching<H>(fs: Seq<TempFile<H>>, pattern: Seq<char>) -> Seq<TempFile<H>>
    decreases fs.len(),
{
    if fs.len() == 0 {
        Seq::empty()
    } else if child_name(fs.last()) is Some && regex_accepts(pattern, child_name(fs.last())->0) {
        matching(fs.drop_last(), pattern).push(fs.last())
    } else {
        matching(fs.drop_last(), pattern)
    }
}

/// The first file named `name` is at `i`.
pub open spec fn first_named<H>(fs: Seq<TempFile<H>>, name: Seq<char>, i: int) -> bool {
    0 <= i < fs.len() && child_name(fs[i]) == Some(name) && forall|j: int|
        0 <= j < i ==> child_name(#[trigger] fs[j]) != Some(name)
}

fn has_name<H>(f: &TempFile<H>, name: &str) -> (r: bool)
    ensures
        r == (child_name(*f) == Some(name@)),
{
    match f.path() {
        Some(p) => match file_name(p) {
            Some(n) => same_text(n.as_str(), name),
            None => false,
        },
        None => false,
    }
}

/// A directory whose lifetime is bound to this value, together with the
/// files created through it. Disposing of it disposes of every tracked file
/// first, then removes the directory.
#[derive(Debug)]
pub struct TempDir<H> {
    path: Option<String>,
    files: Vec<TempFile<H>>,
    created_parent: Option<String>,
}

impl<H> TempDir<H> {
    pub closed spec fn path_view(&self) -> Option<Seq<char>> {
        opt_view(self.path)
    }

    /// The tracked files, in the order they were added.
    pub closed spec fn files_view(&self) -> Seq<TempFile<H>> {
        self.files@
    }

    pub closed spec fn created_parent_view(&self) -> Option<Seq<char>> {
        opt_view(self.created_parent)
    }

    /// What disposing of the directory removes, in order: each tracked
    /// file's removal, then the directory's own tree.
    pub open spec fn teardown_view(&self) -> Seq<(bool, Seq<char>)> {
        let children = all_removals(self.files_view());
        match self.path_view() {
            Some(p) => children.push(disposal_of(p, self.created_parent_view(), true)),
            None => children,
        }
    }

    /// Takes charge of a directory just created by `plan`.
    pub fn from_created(plan: &CreationPlan) -> (r: Self)
        ensures
            r.path_view() == Some(plan.target@),
            r.files_view().len() == 0,
            r.created_parent_view() == opt_view(plan.created_parent),
    {
        TempDir {
            path: Some(plan.target.clone()),
            files: Vec::new(),
            created_parent: plan.created_parent.clone(),
        }
    }

    /// The directory's path, while it is in charge of it.
    pub fn path(&self) -> (r: Option<&str>)
        ensures
            match r {
                Some(p) => self.path_view() == Some(p@),
                None => self.path_view() is None,
            },
    {
        match &self.path {
            Some(p) => Some(p.as_str()),
            None => None,
        }
    }

    /// Gives up the directory, returning its path: it is no longer removed.
    /// Tracked files still are.
    pub fn into_path(&mut self) -> (r: Option<String>)
        ensures
            opt_view(r) == old(self).path_view(),
            final(self).path_view() is None,
            final(self).files_view() == old(self).files_view(),
            final(self).created_parent_view() == old(self).created_parent_view(),
    {
        let mut p = None;
        std::mem::swap(&mut self.path, &mut p);
        p
    }

    /// Where a file named `name` is created: `name` joined onto the
    /// directory's path, with no normalization. Fails once the directory was
    /// given up.
    pub fn child_path(&self, name: &str) -> (r: Result<String, TempError>)
        ensures
            match self.path_view() {
                Some(p) => r matches Ok(c) && c@ == join_path(p, name@),
                None => r matches Err(e) && e is IO,
            },
    {
        match &self.path {
            Some(p) => Ok(join(p.as_str(), name)),
            None => Err(TempError::IO(other_error("Temporary directory path is not set"))),
        }
    }

    /// Starts tracking a file created in the directory, and returns it.
    pub fn adopt(&mut self, file: TempFile<H>) -> (r: &mut TempFile<H>)
        ensures
            *r == file,
            final(self).files_view() == old(self).files_view().push(*final(r)),
            final(self).path_view() == old(self).path_view(),
            final(self).created_parent_view() == old(self).created_parent_view(),
    {
        self.files.push(file);
        let last = self.files.len() - 1;
        &mut self.files[last]
    }

    /// Stops tracking every file named `name` and disposes of it at once:
    /// returns what that removes, in order.
    pub fn remove_file(&mut self, name: &str) -> (r: Vec<Removal>)
        ensures
            final(self).files_view() == kept(old(self).files_view(), name@),
            r@.map_values(|x: Removal| removal_view(x)) == named_removals(
                old(self).files_view(),
                name@,
            ),
            final(self).path_view() == old(self).path_view(),
            final(self).created_parent_view() == old(self).created_parent_view(),
    {
        let mut rest: Vec<TempFile<H>> = Vec::new();
        std::mem::swap(&mut self.files, &mut rest);
        let ghost orig = rest@;
        let n: usize = rest.len();
        let mut removals: Vec<Removal> = Vec::new();
        let mut i: usize = 0;
        assert(orig.subrange(0, 0) =~= Seq::<TempFile<H>>::empty());
        assert(removals@.map_values(|x: Removal| removal_view(x)) =~= Seq::<
            (bool, Seq<char>),
        >::empty());
        assert(rest@ =~= orig.subrange(0, n as int));
        while rest.len() > 0
            invariant
                i + rest@.len() == n,
                n == orig.len(),
                rest@ == orig.subrange(i as int, n as int),
                self.files@ == kept(orig.subrange(0, i as int), name@),
                removals@.map_values(|x: Removal| removal_view(x)) == named_removals(
                    orig.subrange(0, i as int),
                    name@,
                ),
                self.path_view() == old(self).path_view(),
                self.created_parent_view() == old(self).created_parent_view(),
            decreases rest@.len(),
        {
            let ghost before = orig.subrange(0, i as int);
            let ghost after = orig.subrange(0, i + 1);
            let mut f = rest.remove(0);
            assert(f == orig[i as int]);
            assert(after.drop_last() =~= before);
            assert(after.last() == f);
            if has_name(&f, name) {
                let ghost fv = f;
                match f.release() {
                    Some(x) => {
                        let ghost prev = removals@;
                        removals.push(x);
                        assert(removals@.map_values(|x: Removal| removal_view(x)) =~= prev.map_values(
                            |x: Removal| removal_view(x),
                        ).push(removal_view(x)));
                    },
                    None => {},
                }
            } else {
                self.files.push(f);
            }
            i = i + 1;
            assert(rest@ =~= orig.subrange(i as int, n as int));
        }
        assert(orig.subrange(0, i as int) =~= orig);
        removals
    }

    /// The first tracked file named `name`, if any.
    pub fn get_file(&self, name: &str) -> (r: Option<&TempFile<H>>)
        ensures
            match r {
                Some(f) => exists|i: int|
                    first_named(self.files_view(), name@, i) && *f == #[trigger] self.files_view()[i],
                None => forall|i: int|
                    0 <= i < self.files_view().len() ==> child_name(#[trigger] self.files_view()[i])
                        != Some(name@),
            },
    {
        let mut i: usize = 0;
        while i < self.files.len()
            invariant
                i <= self.files@.len(),
                forall|j: int| 0 <= j < i ==> child_name(#[trigger] self.files@[j]) != Some(name@),
            decreases self.files@.len() - i,
        {
            if has_name(&self.files[i], name) {
                assert(first_named(self.files_view(), name@, i as int));
                return Some(&self.files[i]);
            }
            i = i + 1;
        }
        None
    }

    /// The first tracked file named `name`, for mutation, if any.
    pub fn get_file_mut(&mut self, name: &str) -> (r: Option<&mut TempFile<H>>)
        ensures
            match r {
                Some(f) => exists|i: int|
                    first_named(old(self).files_view(), name@, i) && *f == #[trigger] old(
                        self,
                    ).files_view()[i] && final(self).files_view() == old(self).files_view().update(
                        i,
                        *final(f),
                    ),
                None => (forall|i: int|
                    0 <= i < old(self).files_view().len() ==> child_name(
                        #[trigger] old(self).files_view()[i],
                    ) != Some(name@)) && final(self).files_view() == old(self).files_view(),
            },
            final(self).path_view() == old(self).path_view(),
            final(self).created_parent_view() == old(self).created_parent_view(),
    {
        let mut i: usize = 0;
        while i < self.files.len()
            invariant
                i <= self.files@.len(),
                self.files@ == old(self).files@,
                self.path == old(self).path,
                self.created_parent == old(self).created_parent,
                forall|j: int| 0 <= j < i ==> child_name(#[trigger] self.files@[j]) != Some(name@),
            decreases self.files@.len() - i,
        {
            if has_name(&self.files[i], name) {
                assert(first_named(self.files_view(), name@, i as int));
                return Some(&mut self.files[i]);
            }
            i = i + 1;
        }
        None
    }

    /// The paths of the tracked files still active, in tracking order.
    pub fn list_files(&self) -> (r: Vec<String>)
        ensures
            views(r@) == active_paths(self.files_view()),
    {
        let mut out: Vec<String> = Vec::new();
        let mut i: usize = 0;
        assert(views(out@) =~= active_paths(self.files@.subrange(0, 0)));
        while i < self.files.len()
            invariant
                i <= self.files@.len(),
                views(out@) == active_paths(self.files@.subrange(0, i as int)),
            decreases self.files@.len() - i,
        {
            let ghost after = self.files@.subrange(0, i + 1);
            assert(after.drop_last() =~= self.files@.subrange(0, i as int));
            match self.files[i].path() {
                Some(p) => {
                    let s = String::from_str(p);
                    proof {
                        crate::paths::lemma_views_push(out@, s);
                    }
                    out.push(s);
                },
                None => {},
            }
            i = i + 1;
        }
        assert(self.files@.subrange(0, self.files@.len() as int) =~= self.files@);
        out
    }

    /// The tracked files whose name matches `pattern`, in order. A malformed
    /// pattern fails with `TempError::Regex`.
    pub fn find_files_by_pattern(&self, pattern: &str) -> (r: Result<Vec<&TempFile<H>>, TempError>)
        ensures
            r.is_ok() == regex_compiles(pattern@),
            match r {
                Ok(v) => v@.map_values(|f: &TempFile<H>| *f) == matching(
                    self.files_view(),
                    pattern@,
                ),
                Err(e) => e is Regex,
            },
    {
        let re = match Pattern::new(pattern) {
            Ok(re) => re,
            Err(e) => return Err(e),
        };
        let mut out: Vec<&TempFile<H>> = Vec::new();
        let mut i: usize = 0;
        assert(out@.map_values(|f: &TempFile<H>| *f) =~= matching(
            self.files@.subrange(0, 0),
            pattern@,
        ));
        while i < self.files.len()
            invariant
                i <= self.files@.len(),
                re.source() == pattern@,
                out@.map_values(|f: &TempFile<H>| *f) == matching(
                    self.files@.subrange(0, i as int),
                    pattern@,
                ),
            decreases self.files@.len() - i,
        {
            let ghost after = self.files@.subrange(0, i + 1);
            assert(after.drop_last() =~= self.files@.subrange(0, i as int));
            let f = &self.files[i];
            let hit = match f.path() {
                Some(p) => match file_name(p) {
                    Some(n) => pattern_matches(&re, n.as_str()),
                    None => false,
                },
                None => false,
            };
            if hit {
                let ghost prev = out@;
                out.push(f);
                assert(out@.map_values(|f: &TempFile<H>| *f) =~= prev.map_values(
                    |f: &TempFile<H>| *f,
                ).push(*f));
            }
            i = i + 1;
        }
        assert(self.files@.subrange(0, self.files@.len() as int) =~= self.files@);
        Ok(out)
    }

    /// The tracked files whose name matches `pattern`, in order, for
    /// mutation. A malformed pattern fails with `TempError::Regex`.
    pub fn find_files_by_pattern_mut(&mut self, pattern: &str) -> (r: Result<
        Vec<&mut TempFile<H>>,
        TempError,
    >)
        ensures
            r.is_ok() == regex_compiles(pattern@),
            match r {
                Ok(v) => v@.map_values(|f: &mut TempFile<H>| *f) == matching(
                    old(self).files_view(),
                    pattern@,
                ),
                Err(e) => e is Regex,
            },
            final(self).path_view() == old(self).path_view(),
            final(self).created_parent_view() == old(self).created_parent_view(),
    {
        let re = match Pattern::new(pattern) {
            Ok(re) => re,
            Err(e) => return Err(e),
        };
        let ghost all = self.files@;
        let n: usize = self.files.len();
        let mut out: Vec<&mut TempFile<H>> = Vec::new();
        let mut rest: &mut [TempFile<H>] = self.files.as_mut_slice();
        let mut i: usize = 0;
        assert(out@.map_values(|f: &mut TempFile<H>| *f) =~= matching(all.subrange(0, 0), pattern@));
        while rest.len() > 0
            invariant
                re.source() == pattern@,
                i + rest@.len() == all.len(),
                n == all.len(),
                rest@ == all.subrange(i as int, all.len() as int),
                out@.map_values(|f: &mut TempFile<H>| *f) == matching(all.subrange(0, i as int), pattern@),
            decreases rest@.len(),
        {
            let ghost after = all.subrange(0, i + 1);
            assert(after.drop_last() =~= all.subrange(0, i as int));
            let (head, tail) = rest.split_at_mut(1);
            let f = head.first_mut().unwrap();
            assert(*f == all[i as int]);
            let hit = match f.path() {
                Some(p) => match file_name(p) {
                    Some(n) => pattern_matches(&re, n.as_str()),
                    None => false,
                },
                None => false,
            };
            if hit {
                let ghost prev = out@;
                out.push(f);
                assert(out@.map_values(|f: &mut TempFile<H>| *f) =~= prev.map_values(
                    |f: &mut TempFile<H>| *f,
                ).push(all[i as int]));
            }
            rest = tail;
            i = i + 1;
            assert(rest@ =~= all.subrange(i as int, all.len() as int));
        }
        assert(all.subrange(0, i as int) =~= all);
        Ok(out)
    }

    /// Disposes of the directory: every tracked file first, in order, then
    /// the directory itself, through the tree of its created-parent marker
    /// where one was recorded. Returns what that removes, in that order.
    pub fn teardown(&mut self) -> (r: Vec<Removal>)
        ensures
            r@.map_values(|x: Removal| removal_view(x)) == old(self).teardown_view(),
            final(self).files_view().len() == 0,
            final(self).path_view() is None,
    {
        let mut rest: Vec<TempFile<H>> = Vec::new();
        std::mem::swap(&mut self.files, &mut rest);
        let ghost orig = rest@;
        let n: usize = rest.len();
        let mut removals: Vec<Removal> = Vec::new();
        let mut i: usize = 0;
        assert(removals@.map_values(|x: Removal| removal_view(x)) =~= all_removals(
            orig.subrange(0, 0),
        ));
        assert(rest@ =~= orig.subrange(0, n as int));
        while rest.len() > 0
            invariant
                i + rest@.len() == n,
                n == orig.len(),
                rest@ == orig.subrange(i as int, n as int),
                self.files@.len() == 0,
                removals@.map_values(|x: Removal| removal_view(x)) == all_removals(
                    orig.subrange(0, i as int),
                ),
                self.path_view() == old(self).path_view(),
                self.created_parent_view() == old(self).created_parent_view(),
            decreases rest@.len(),
        {
            let ghost after = orig.subrange(0, i + 1);
            let mut f = rest.remove(0);
            assert(f == orig[i as int]);
            assert(after.drop_last() =~= orig.subrange(0, i as int));
            match f.release() {
                Some(x) => {
                    let ghost prev = removals@;
                    removals.push(x);
                    assert(removals@.map_values(|x: Removal| removal_view(x)) =~= prev.map_values(
                        |x: Removal| removal_view(x),
                    ).push(removal_view(x)));
                },
                None => {},
            }
            i = i + 1;
            assert(rest@ =~= orig.subrange(i as int, n as int));
        }
        assert(orig.subrange(0, i as int) =~= orig);
        let mut p = None;
        std::mem::swap(&mut self.path, &mut p);
        match p {
            Some(dir) => {
                let own = match &self.created_parent {
                    Some(d) => Removal::Tree(d.clone()),
                    None => Removal::Tree(dir),
                };
                let ghost prev = removals@;
                removals.push(own);
                assert(removals@.map_values(|x: Removal| removal_view(x)) =~= prev.map_values(
                    |x: Removal| removal_view(x),
                ).push(removal_view(own)));
            },
            None => {},
        }
        removals
    }
}

/// Disposing of a directory removes its tracked files before the directory
/// itself: the directory's removal comes last.
pub proof fn lemma_children_before_directory<H>(d: TempDir<H>)
    requires
        d.path_view() is Some,
    ensures
        d.teardown_view().len() == all_removals(d.files_view()).len() + 1,
        d.teardown_view().last() == disposal_of(
            d.path_view()->0,
            d.created_parent_view(),
            true,
        ),
        forall|i: int|
            0 <= i < all_removals(d.files_view()).len() ==> d.teardown_view()[i] == all_removals(
                d.files_view(),
            )[i],
{
}

} // verus!
