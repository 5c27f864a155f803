use vstd::prelude::*;
use vstd::string::*;
use crate::error::TempError;
use crate::paths::{
    views, render, ancestor_chain, parent_of, first_absent, directory_prefixes,
    first_absent_index, parent_path,
};

verus! {

/// Owner read, write and execute; nothing for group and others.
pub const OWNER_ONLY_MODE: u32 = 0o700;

/// What a creation makes at its target.
#[derive(Clone, Copy, Debug)]
pub enum ResourceKind {
    File,
    Dir,
}

/// The filesystem work that creates one file or directory.
///
/// Carried out in order: create `make_dirs` with all its missing parents;
/// create the target (a file exclusively, failing where it appeared
/// meanwhile); if that fails and `created_parent` is set, remove the tree at
/// `created_parent`; otherwise set `OWNER_ONLY_MODE` on each of `harden`.
pub struct CreationPlan {
    /// The path to create.
    pub target: String,
    /// The directory to create together with its missing parents.
    pub make_dirs: Option<String>,
    /// The directories this creation makes, outermost first.
    pub fresh_dirs: Vec<String>,
    /// Everything that receives owner-only permissions on success.
    pub harden: Vec<String>,
    /// The outermost directory this creation makes above the target: its
    /// tree is what rollback and final cleanup remove.
    pub created_parent: Option<String>,
}

pub open spec fn opt_view(o: Option<String>) -> Option<Seq<char>> {
    match o {
        Some(s) => Some(s@),
        None => None,
    }
}

/// The first directory above the target found missing, by its position.
pub open spec fn first_missing_at(present: Seq<bool>) -> Option<int> {
    if exists|k: int| first_absent(present, k) {
        Some(choose|k: int| first_absent(present, k))
    } else {
        None
    }
}

/// The directories a creation makes, outermost first: those above the
/// target from the first missing one on, then a directory target itself.
pub open spec fn fresh_dirs_of(target: Seq<char>, kind: ResourceKind, present: Seq<bool>) -> Seq<
    Seq<char>,
> {
    let chain = ancestor_chain(target);
    let above = match first_missing_at(present) {
        Some(k) => chain.subrange(k, chain.len() as int),
        None => Seq::empty(),
    };
    match kind {
        ResourceKind::File => above,
        ResourceKind::Dir => above.push(target),
    }
}

pub open spec fn created_parent_of(target: Seq<char>, present: Seq<bool>) -> Option<Seq<char>> {
    match first_missing_at(present) {
        Some(k) => Some(ancestor_chain(target)[k]),
        None => None,
    }
}

pub open spec fn make_dirs_of(target: Seq<char>, kind: ResourceKind, present: Seq<bool>) -> Option<
    Seq<char>,
> {
    match kind {
        ResourceKind::Dir => Some(target),
        ResourceKind::File => if first_missing_at(present) is Some {
            parent_of(target)
        } else {
            None
        },
    }
}

pub open spec fn harden_of(target: Seq<char>, kind: ResourceKind, present: Seq<bool>) -> Seq<
    Seq<char>,
> {
    match kind {
        ResourceKind::File => fresh_dirs_of(target, kind, present).push(target),
        ResourceKind::Dir => fresh_dirs_of(target, kind, present),
    }
}

proof fn lemma_first_absent_unique(present: Seq<bool>, a: int, b: int)
    requires
        first_absent(present, a),
        first_absent(present, b),
    ensures
        a == b,
{
}

proof fn lemma_first_missing_at(present: Seq<bool>, k: int)
    requires
        first_absent(present, k),
    ensures
        first_missing_at(present) == Some(k),
{
    let c = choose|k: int| first_absent(present, k);
    lemma_first_absent_unique(present, c, k);
}

/// Plans the creation of a file or directory at `target`. `target_exists`
/// tells whether something is there already; `present` tells, for each
/// entry of `directory_prefixes(target)` in order, whether it exists.
/// A file target that exists already is refused with `PathExists`.
pub fn plan_creation(target: &str, kind: ResourceKind, target_exists: bool, present: &[bool]) -> (r:
    Result<CreationPlan, TempError>)
    requires
        present@.len() == ancestor_chain(target@).len(),
    ensures
        r.is_err() == (kind is File && target_exists),
        match r {
            Err(e) => match e {
                TempError::PathExists(p) => p@ == target@,
                _ => false,
            },
            Ok(plan) => {
                &&& plan.target@ == target@
                &&& opt_view(plan.make_dirs) == make_dirs_of(target@, kind, present@)
                &&& views(plan.fresh_dirs@) == fresh_dirs_of(target@, kind, present@)
                &&& views(plan.harden@) == harden_of(target@, kind, present@)
                &&& opt_view(plan.created_parent) == created_parent_of(target@, present@)
            },
        },
{
    let is_file = match kind {
        ResourceKind::File => true,
        ResourceKind::Dir => false,
    };
    if is_file && target_exists {
        return Err(TempError::PathExists(String::from_str(target)));
    }
    let chain = directory_prefixes(target);
    let missing = first_absent_index(present);
    let ghost above: Seq<Seq<char>>;
    let mut fresh: Vec<String> = Vec::new();
    let mut created_parent: Option<String> = None;
    match missing {
        Some(k) => {
            proof {
                lemma_first_missing_at(present@, k as int);
            }
            created_parent = Some(chain[k].clone());
            let mut i: usize = k;
            assert(views(fresh@) =~= views(chain@).subrange(k as int, k as int));
            while i < chain.len()
                invariant
                    k <= i <= chain.len(),
                    views(fresh@) == views(chain@).subrange(k as int, i as int),
                decreases chain.len() - i,
            {
                let d = chain[i].clone();
                proof {
                    crate::paths::lemma_views_push(fresh@, d);
                }
                fresh.push(d);
                assert(views(fresh@) =~= views(chain@).subrange(k as int, i + 1));
                i = i + 1;
            }
            proof {
                above = views(chain@).subrange(k as int, chain.len() as int);
            }
        },
        None => {
            proof {
                if exists|k: int| first_absent(present@, k) {
                    let k = choose|k: int| first_absent(present@, k);
                    assert(present@[k]);
                }
                above = Seq::empty();
            }
            assert(views(fresh@) =~= above);
        },
    }
    let make_dirs = if is_file {
        if missing.is_some() {
            parent_path(target)
        } else {
            None
        }
    } else {
        Some(String::from_str(target))
    };
    let target_owned = String::from_str(target);
    if !is_file {
        proof {
            crate::paths::lemma_views_push(fresh@, target_owned);
        }
        fresh.push(target_owned.clone());
    }
    let mut harden = fresh.clone();
    assert(harden@ == fresh@);
    if is_file {
        proof {
            crate::paths::lemma_views_push(harden@, target_owned);
        }
        harden.push(target_owned.clone());
    }
    Ok(
        CreationPlan {
            target: target_owned,
            make_dirs,
            fresh_dirs: fresh,
            harden,
            created_parent,
        },
    )
}

/// `d` is `r` itself or lies below it: the two share a root marker, and
/// `d`'s segments extend `r`'s.
pub open spec fn lies_within(d: Seq<char>, r: Seq<char>) -> bool {
    exists|rooted: bool, a: Seq<Seq<char>>, b: Seq<Seq<char>>|
        r == render(rooted, a) && d == #[trigger] render(rooted, a + b)
}

/// Removing the tree at the created-parent marker removes every ancestor
/// directory that the creation makes: each of them lies within it.
pub proof fn lemma_rollback_covers_fresh(target: Seq<char>, kind: ResourceKind, present: Seq<bool>)
    requires
        present.len() == ancestor_chain(target).len(),
        first_missing_at(present) is Some,
    ensures
        created_parent_of(target, present) is Some,
        forall|i: int|
            first_missing_at(present)->0 <= i < ancestor_chain(target).len() ==> lies_within(
                #[trigger] ancestor_chain(target)[i],
                created_parent_of(target, present)->0,
            ),
{
    let k = first_missing_at(present)->0;
    let c = choose|k: int| first_absent(present, k);
    assert(first_absent(present, c));
    let chain = ancestor_chain(target);
    let segs = crate::paths::segments(target);
    let rooted = crate::paths::is_rooted(target);
    assert forall|i: int| k <= i < chain.len() implies lies_within(
        #[trigger] chain[i],
        chain[k],
    ) by {
        let ps = segs.drop_last();
        if rooted {
            if k == 0 {
                let b = if i == 0 { Seq::<Seq<char>>::empty() } else { ps.subrange(0, i) };
                assert(chain[0] == seq!['/']);
                assert(render(true, Seq::empty()) =~= seq!['/']);
                if i == 0 {
                    assert(render(true, Seq::<Seq<char>>::empty() + b) =~= seq!['/']);
                } else {
                    assert(Seq::<Seq<char>>::empty() + b =~= ps.subrange(0, i));
                }
                assert(chain[i] == render(true, Seq::<Seq<char>>::empty() + b));
            } else {
                let a = ps.subrange(0, k);
                let b = ps.subrange(k, i);
                assert(a + b =~= ps.subrange(0, i));
                assert(chain[k] == render(true, a));
                assert(chain[i] == render(true, a + b));
            }
        } else {
            let a = ps.subrange(0, k + 1);
            let b = ps.subrange(k + 1, i + 1);
            assert(a + b =~= ps.subrange(0, i + 1));
            assert(chain[k] == render(false, a));
            assert(chain[i] == render(false, a + b));
        }
    }
}

/// A creation hardens its target: the target is the last path to receive
/// owner-only permissions, and for a file the paths before it are exactly
/// the directories the creation makes.
pub proof fn lemma_target_hardened(target: Seq<char>, kind: ResourceKind, present: Seq<bool>)
    ensures
        harden_of(target, kind, present).len() > 0,
        harden_of(target, kind, present).last() == target,
        kind is File ==> harden_of(target, kind, present).drop_last() == fresh_dirs_of(
            target,
            kind,
            present,
        ),
{
    match kind {
        ResourceKind::File => {
            assert(fresh_dirs_of(target, kind, present).push(target).drop_last() =~= fresh_dirs_of(
                target,
                kind,
                present,
            ));
        },
        ResourceKind::Dir => {},
    }
}

} // verus!
