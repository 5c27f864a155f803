use vstd::prelude::*;
use vstd::string::*;

verus! {

/// The character sequences held by a list of strings.
pub open spec fn views(v: Seq<String>) -> Seq<Seq<char>> {
    v.map_values(|x: String| x@)
}

/// The pieces of `s` between `/` separators, empty ones included: a
/// separator starts a new piece, any other character extends the last one.
pub open spec fn split_all(s: Seq<char>) -> Seq<Seq<char>>
    decreases s.len(),
{
    if s.len() == 0 {
        seq![Seq::empty()]
    } else {
        let prev = split_all(s.drop_last());
        if s.last() == '/' {
            prev.push(Seq::empty())
        } else {
            prev.update(prev.len() - 1, prev.last().push(s.last()))
        }
    }
}

/// The pieces that are not empty, in order.
pub open spec fn nonempty(pieces: Seq<Seq<char>>) -> Seq<Seq<char>>
    decreases pieces.len(),
{
    if pieces.len() == 0 {
        Seq::empty()
    } else if pieces.last().len() > 0 {
        nonempty(pieces.drop_last()).push(pieces.last())
    } else {
        nonempty(pieces.drop_last())
    }
}

/// The non-empty pieces of `s` between `/` separators, in order.
pub open spec fn segments(s: Seq<char>) -> Seq<Seq<char>> {
    nonempty(split_all(s))
}

proof fn lemma_split_all_len(s: Seq<char>)
    ensures
        split_all(s).len() >= 1,
    decreases s.len(),
{
    if s.len() > 0 {
        lemma_split_all_len(s.drop_last());
    }
}

/// A separator followed by a piece without separators adds that piece.
proof fn lemma_split_all_append(s: Seq<char>, p: Seq<char>)
    requires
        forall|i: int| 0 <= i < p.len() ==> p[i] != '/',
    ensures
        split_all(s + seq!['/'] + p) == split_all(s).push(p),
    decreases p.len(),
{
    let t = s + seq!['/'] + p;
    if p.len() == 0 {
        assert(t.drop_last() =~= s);
        assert(t.last() == '/');
        assert(p =~= Seq::<char>::empty());
    } else {
        let q = p.drop_last();
        lemma_split_all_append(s, q);
        assert(t.drop_last() =~= s + seq!['/'] + q);
        assert(t.last() == p.last());
        assert(p.last() != '/');
        assert(q.push(p.last()) =~= p);
        lemma_split_all_len(s + seq!['/'] + q);
        assert(split_all(s).push(q).update(split_all(s).len() as int, q.push(p.last())) =~= split_all(
            s,
        ).push(p));
    }
}

/// A separator followed by a non-empty piece without separators adds that
/// segment.
pub proof fn lemma_segments_append(s: Seq<char>, p: Seq<char>)
    requires
        p.len() > 0,
        forall|i: int| 0 <= i < p.len() ==> p[i] != '/',
    ensures
        segments(s + seq!['/'] + p) == segments(s).push(p),
{
    lemma_split_all_append(s, p);
    assert(split_all(s).push(p).drop_last() =~= split_all(s));
}

/// Every segment is non-empty and holds no separator.
pub open spec fn well_formed_parts(parts: Seq<Seq<char>>) -> bool {
    forall|i: int|
        0 <= i < parts.len() ==> #[trigger] parts[i].len() > 0 && forall|j: int|
            0 <= j < parts[i].len() ==> parts[i][j] != '/'
}

proof fn lemma_split_all_no_separator(s: Seq<char>)
    ensures
        forall|i: int, j: int|
            0 <= i < split_all(s).len() && 0 <= j < split_all(s)[i].len() ==> split_all(s)[i][j]
                != '/',
    decreases s.len(),
{
    if s.len() > 0 {
        lemma_split_all_no_separator(s.drop_last());
        lemma_split_all_len(s.drop_last());
        let prev = split_all(s.drop_last());
        if s.last() != '/' {
            assert forall|i: int, j: int|
                0 <= i < split_all(s).len() && 0 <= j < split_all(s)[i].len() implies split_all(
                s,
            )[i][j] != '/' by {
                if i == prev.len() - 1 {
                    assert(split_all(s)[i] == prev.last().push(s.last()));
                    if j < prev.last().len() {
                        assert(split_all(s)[i][j] == prev[i][j]);
                    }
                } else {
                    assert(split_all(s)[i] == prev[i]);
                }
            }
        } else {
            assert forall|i: int, j: int|
                0 <= i < split_all(s).len() && 0 <= j < split_all(s)[i].len() implies split_all(
                s,
            )[i][j] != '/' by {
                if i < prev.len() {
                    assert(split_all(s)[i] == prev[i]);
                }
            }
        }
    }
}

proof fn lemma_nonempty_well_formed(pieces: Seq<Seq<char>>)
    requires
        forall|i: int, j: int|
            0 <= i < pieces.len() && 0 <= j < pieces[i].len() ==> pieces[i][j] != '/',
    ensures
        well_formed_parts(nonempty(pieces)),
    decreases pieces.len(),
{
    if pieces.len() > 0 {
        let rest = pieces.drop_last();
        assert forall|i: int, j: int| 0 <= i < rest.len() && 0 <= j < rest[i].len() implies rest[i][j]
            != '/' by {
            assert(rest[i] == pieces[i]);
        }
        lemma_nonempty_well_formed(rest);
        if pieces.last().len() > 0 {
            assert(pieces.last() == pieces[pieces.len() - 1]);
        }
    }
}

/// Segments are non-empty and hold no separator.
pub proof fn lemma_segments_well_formed(s: Seq<char>)
    ensures
        well_formed_parts(segments(s)),
{
    lemma_split_all_no_separator(s);
    lemma_nonempty_well_formed(split_all(s));
}

/// The segments of a rooted path rendered from well-formed segments are
/// those segments.
pub proof fn lemma_segments_render(parts: Seq<Seq<char>>)
    requires
        well_formed_parts(parts),
    ensures
        segments(render(true, parts)) == parts,
    decreases parts.len(),
{
    if parts.len() == 0 {
        let t = render(true, parts);
        assert(t =~= seq!['/']);
        assert(t.drop_last() =~= Seq::<char>::empty());
        let e = Seq::<char>::empty();
        assert(split_all(e) == seq![e]);
        assert(split_all(t) == split_all(e).push(e));
        let sp = split_all(t);
        assert(sp.last() == e);
        assert(sp.drop_last() =~= seq![e]);
        assert(seq![e].drop_last() =~= Seq::<Seq<char>>::empty());
        assert(nonempty(seq![e]) == nonempty(Seq::<Seq<char>>::empty()));
        assert(nonempty(sp) == nonempty(sp.drop_last()));
        assert(parts =~= Seq::<Seq<char>>::empty());
    } else if parts.len() == 1 {
        let p = parts[0];
        assert(parts[0].len() > 0);
        lemma_segments_append(Seq::empty(), p);
        assert(render(true, parts) =~= Seq::<char>::empty() + seq!['/'] + p);
        let e = Seq::<char>::empty();
        assert(split_all(e) == seq![e]);
        assert(seq![e].last() == e);
        assert(seq![e].drop_last() =~= Seq::<Seq<char>>::empty());
        assert(nonempty(seq![e]) == nonempty(Seq::<Seq<char>>::empty()));
        assert(segments(e) =~= Seq::<Seq<char>>::empty());
        assert(parts =~= Seq::<Seq<char>>::empty().push(p));
    } else {
        let init = parts.drop_last();
        let p = parts.last();
        assert(well_formed_parts(init)) by {
            assert forall|i: int| 0 <= i < init.len() implies #[trigger] init[i].len() > 0
                && forall|j: int| 0 <= j < init[i].len() ==> init[i][j] != '/' by {
                assert(init[i] == parts[i]);
            }
        }
        lemma_segments_render(init);
        assert(parts[parts.len() - 1] == p);
        lemma_segments_append(render(true, init), p);
        assert(render(true, parts) =~= render(true, init) + seq!['/'] + p);
        assert(parts =~= init.push(p));
    }
}

/// The path starts at the root.
pub open spec fn is_rooted(s: Seq<char>) -> bool {
    s.len() > 0 && s[0] == '/'
}

/// The segments joined by single separators.
pub open spec fn join_parts(parts: Seq<Seq<char>>) -> Seq<char>
    decreases parts.len(),
{
    if parts.len() == 0 {
        Seq::empty()
    } else if parts.len() == 1 {
        parts[0]
    } else {
        join_parts(parts.drop_last()) + seq!['/'] + parts.last()
    }
}

/// The text of a path made of a root marker and segments.
pub open spec fn render(rooted: bool, parts: Seq<Seq<char>>) -> Seq<char> {
    if rooted {
        seq!['/'] + join_parts(parts)
    } else {
        join_parts(parts)
    }
}

/// Appends a relative path to a base, with one separator between them.
pub open spec fn append_path(a: Seq<char>, b: Seq<char>) -> Seq<char> {
    if a.len() == 0 || a.last() == '/' {
        a + b
    } else {
        a + seq!['/'] + b
    }
}

/// `b` joined onto `a`: an absolute `b` replaces `a`.
pub open spec fn join_path(a: Seq<char>, b: Seq<char>) -> Seq<char> {
    if is_rooted(b) {
        b
    } else {
        append_path(a, b)
    }
}

/// One step of normalization: `.` is dropped, `..` removes the last segment.
pub open spec fn norm_step(parts: Seq<Seq<char>>, seg: Seq<char>) -> Seq<Seq<char>> {
    if seg == seq!['.'] {
        parts
    } else if seg == seq!['.', '.'] {
        if parts.len() > 0 {
            parts.drop_last()
        } else {
            parts
        }
    } else {
        parts.push(seg)
    }
}

pub open spec fn norm_fold(init: Seq<Seq<char>>, segs: Seq<Seq<char>>) -> Seq<Seq<char>>
    decreases segs.len(),
{
    if segs.len() == 0 {
        init
    } else {
        norm_step(norm_fold(init, segs.drop_last()), segs.last())
    }
}

/// A relative path whose first segment is `.`.
pub open spec fn leads_with_cur(s: Seq<char>) -> bool {
    !is_rooted(s) && segments(s).len() > 0 && segments(s)[0] == seq!['.']
}

/// Whether the normalized path is absolute: a leading `.` takes the
/// working directory's place.
pub open spec fn normalized_rooted(s: Seq<char>, cwd: Seq<char>) -> bool {
    if leads_with_cur(s) {
        is_rooted(cwd)
    } else {
        is_rooted(s)
    }
}

/// The segments of the normalized path: a leading `.` splices in the
/// working directory, later `.` are dropped, `..` pops without bound.
pub open spec fn normalized_parts(s: Seq<char>, cwd: Seq<char>) -> Seq<Seq<char>> {
    norm_fold(
        if leads_with_cur(s) {
            segments(cwd)
        } else {
            Seq::empty()
        },
        segments(s),
    )
}

pub open spec fn normalized(s: Seq<char>, cwd: Seq<char>) -> Seq<char> {
    render(normalized_rooted(s, cwd), normalized_parts(s, cwd))
}

/// A path grounded against `base` when it is not absolute once normalized.
pub open spec fn resolved(s: Seq<char>, base: Seq<char>, cwd: Seq<char>) -> Seq<char> {
    if normalized_rooted(s, cwd) {
        normalized(s, cwd)
    } else {
        append_path(base, normalized(s, cwd))
    }
}

/// The directory holding the path's last segment.
pub open spec fn parent_of(s: Seq<char>) -> Option<Seq<char>> {
    if segments(s).len() == 0 {
        None
    } else {
        Some(render(is_rooted(s), segments(s).drop_last()))
    }
}

/// The path's last segment, unless that is `.` or `..`.
pub open spec fn file_name_of(s: Seq<char>) -> Option<Seq<char>> {
    let segs = segments(s);
    if segs.len() > 0 && segs.last() != seq!['.'] && segs.last() != seq!['.', '.'] {
        Some(segs.last())
    } else {
        None
    }
}

/// The path holds no separator, neither `/` nor `\`.
pub open spec fn is_bare(s: Seq<char>) -> bool {
    forall|i: int| 0 <= i < s.len() ==> s[i] != '/' && s[i] != '\\'
}

/// The directories above a path, outermost first, each as its own path.
pub open spec fn ancestor_chain(s: Seq<char>) -> Seq<Seq<char>> {
    let segs = segments(s);
    if segs.len() == 0 {
        Seq::empty()
    } else {
        let ps = segs.drop_last();
        let tail = Seq::new(ps.len(), |i: int| render(is_rooted(s), ps.subrange(0, i + 1)));
        if is_rooted(s) {
            seq![seq!['/']] + tail
        } else {
            tail
        }
    }
}

pub(crate) proof fn lemma_views_push(v: Seq<String>, x: String)
    ensures
        views(v.push(x)) == views(v).push(x@),
{
    assert(views(v.push(x)) =~= views(v).push(x@));
}

/// Splits a path into its non-empty segments.
pub fn get_components(path: &str) -> (r: Vec<String>)
    ensures
        views(r@) == segments(path@),
{
    let n = path.unicode_len();
    let mut acc: Vec<String> = Vec::new();
    let mut start: usize = 0;
    let mut i: usize = 0;
    assert(path@.subrange(0, 0) =~= Seq::<char>::empty());
    assert(views(acc@) =~= Seq::<Seq<char>>::empty());
    assert(path@.subrange(0, 0) =~= path@.subrange(0, 0));
    while i < n
        invariant
            n == path@.len(),
            start <= i <= n,
            split_all(path@.subrange(0, i as int)).len() >= 1,
            views(acc@) == nonempty(split_all(path@.subrange(0, i as int)).drop_last()),
            split_all(path@.subrange(0, i as int)).last() == path@.subrange(start as int, i as int),
        decreases n - i,
    {
        let ghost prev = split_all(path@.subrange(0, i as int));
        let ghost next = split_all(path@.subrange(0, i + 1));
        assert(path@.subrange(0, i + 1).drop_last() =~= path@.subrange(0, i as int));
        let c = path.get_char(i);
        assert(path@.subrange(0, i + 1).last() == c);
        if c == '/' {
            assert(next == prev.push(Seq::empty()));
            assert(next.drop_last() =~= prev);
            assert(prev =~= prev.drop_last().push(prev.last()));
            if start < i {
                let piece = String::from_str(path.substring_char(start, i));
                proof {
                    lemma_views_push(acc@, piece);
                }
                acc.push(piece);
            }
            start = i + 1;
            assert(path@.subrange(start as int, i + 1) =~= Seq::<char>::empty());
        } else {
            assert(next.drop_last() =~= prev.drop_last());
            assert(path@.subrange(start as int, i + 1) =~= path@.subrange(start as int, i as int).push(c));
        }
        i = i + 1;
    }
    let ghost all = split_all(path@.subrange(0, n as int));
    assert(path@.subrange(0, n as int) =~= path@);
    assert(all =~= all.drop_last().push(all.last()));
    if start < n {
        let piece = String::from_str(path.substring_char(start, n));
        proof {
            lemma_views_push(acc@, piece);
        }
        acc.push(piece);
    }
    acc
}

/// Joins segments into path text, after a root marker when `rooted`.
pub fn render_path(rooted: bool, parts: &Vec<String>) -> (r: String)
    ensures
        r@ == render(rooted, views(parts@)),
{
    let mut out = if rooted {
        String::from_str("/")
    } else {
        String::new()
    };
    proof {
        reveal_strlit("/");
        assert("/"@ =~= seq!['/']);
    }
    let ghost head: Seq<char> = out@;
    let mut i: usize = 0;
    assert(views(parts@).subrange(0, 0) =~= Seq::<Seq<char>>::empty());
    while i < parts.len()
        invariant
            i <= parts.len(),
            head == (if rooted { seq!['/'] } else { Seq::<char>::empty() }),
            out@ == head + join_parts(views(parts@).subrange(0, i as int)),
        decreases parts.len() - i,
    {
        let ghost before = views(parts@).subrange(0, i as int);
        let ghost after = views(parts@).subrange(0, i + 1);
        assert(after.drop_last() =~= before);
        assert(after.last() == parts[i as int]@);
        let ghost prev = out@;
        proof {
            reveal_strlit("/");
            assert("/"@ =~= seq!['/']);
        }
        if i > 0 {
            out.append("/");
        }
        out.append(parts[i].as_str());
        if i == 0 {
            assert(join_parts(before) =~= Seq::<char>::empty());
            assert(join_parts(after) == after[0]);
            assert(out@ =~= prev + after.last());
        } else {
            assert(join_parts(after) == join_parts(before) + seq!['/'] + after.last());
            assert(out@ =~= prev + seq!['/'] + after.last());
        }
        assert(out@ =~= head + join_parts(after));
        i = i + 1;
    }
    assert(views(parts@).subrange(0, parts.len() as int) =~= views(parts@));
    out
}

/// The root marker and segments of a normalized path.
fn normalize_parts(path: &str, cwd: &str) -> (r: (bool, Vec<String>))
    ensures
        r.0 == normalized_rooted(path@, cwd@),
        views(r.1@) == normalized_parts(path@, cwd@),
{
    let segs = get_components(path);
    let rooted_path = path.unicode_len() > 0 && path.get_char(0) == '/';
    let lead_cur = !rooted_path && segs.len() > 0 && segs[0].as_str().unicode_len() == 1
        && segs[0].as_str().get_char(0) == '.';
    proof {
        if !rooted_path && segs.len() > 0 {
            let s0 = views(segs@)[0];
            if segs[0]@.len() == 1 && segs[0]@[0] == '.' {
                assert(s0 =~= seq!['.']);
            }
        }
    }
    let rooted;
    let mut parts: Vec<String>;
    if lead_cur {
        rooted = cwd.unicode_len() > 0 && cwd.get_char(0) == '/';
        parts = get_components(cwd);
    } else {
        rooted = rooted_path;
        parts = Vec::new();
        assert(views(parts@) =~= Seq::<Seq<char>>::empty());
    }
    let ghost init = views(parts@);
    let mut i: usize = 0;
    assert(views(segs@).subrange(0, 0) =~= Seq::<Seq<char>>::empty());
    while i < segs.len()
        invariant
            i <= segs.len(),
            views(segs@) == segments(path@),
            views(parts@) == norm_fold(init, views(segs@).subrange(0, i as int)),
        decreases segs.len() - i,
    {
        let ghost before = views(segs@).subrange(0, i as int);
        let ghost after = views(segs@).subrange(0, i + 1);
        assert(after.drop_last() =~= before);
        let seg = segs[i].as_str();
        let n = seg.unicode_len();
        if n == 1 && seg.get_char(0) == '.' {
            assert(seg@ =~= seq!['.']);
        } else if n == 2 && seg.get_char(0) == '.' && seg.get_char(1) == '.' {
            assert(seg@ =~= seq!['.', '.']);
            if parts.len() > 0 {
                parts.pop();
                assert(views(parts@) =~= norm_fold(init, before).drop_last());
            }
        } else {
            assert(seg@ != seq!['.']);
            assert(seg@ != seq!['.', '.']);
            let owned = String::from_str(seg);
            proof {
                lemma_views_push(parts@, owned);
            }
            parts.push(owned);
        }
        i = i + 1;
    }
    assert(views(segs@).subrange(0, segs.len() as int) =~= views(segs@));
    (rooted, parts)
}

/// Normalizes a path without touching any filesystem. A leading `.`
/// stands for the working directory `cwd`; later `.` segments are dropped;
/// `..` removes the segment before it, and is dropped where there is none.
pub fn normalize_path(path: &str, cwd: &str) -> (r: String)
    ensures
        r@ == normalized(path@, cwd@),
{
    let (rooted, parts) = normalize_parts(path, cwd);
    render_path(rooted, &parts)
}

/// Appends a relative path to a base directory.
pub fn append_to(base: &str, rel: &str) -> (r: String)
    ensures
        r@ == append_path(base@, rel@),
{
    let n = base.unicode_len();
    let mut out = String::from_str(base);
    proof {
        reveal_strlit("/");
        assert("/"@ =~= seq!['/']);
    }
    if n > 0 && base.get_char(n - 1) != '/' {
        out.append("/");
    }
    out.append(rel);
    proof {
        if n > 0 {
            assert(base@.last() == base@[n - 1]);
        }
    }
    out
}

/// Joins `rel` onto `base`; an absolute `rel` replaces `base`.
pub fn join(base: &str, rel: &str) -> (r: String)
    ensures
        r@ == join_path(base@, rel@),
{
    if rel.unicode_len() > 0 && rel.get_char(0) == '/' {
        String::from_str(rel)
    } else {
        append_to(base, rel)
    }
}

/// Normalizes `path` and grounds it under `base` when it is relative.
/// `base` is the system temporary directory or the working directory,
/// `cwd` the working directory.
pub fn resolve_path(path: &str, base: &str, cwd: &str) -> (r: String)
    ensures
        r@ == resolved(path@, base@, cwd@),
{
    let (rooted, parts) = normalize_parts(path, cwd);
    let norm = render_path(rooted, &parts);
    if rooted {
        norm
    } else {
        append_to(base, norm.as_str())
    }
}

/// The directory holding the path's last segment, if it has one.
pub fn parent_path(path: &str) -> (r: Option<String>)
    ensures
        match r {
            Some(p) => parent_of(path@) == Some(p@),
            None => parent_of(path@) is None,
        },
{
    let mut segs = get_components(path);
    if segs.len() == 0 {
        return None;
    }
    let rooted = path.unicode_len() > 0 && path.get_char(0) == '/';
    let ghost all = views(segs@);
    segs.pop();
    assert(views(segs@) =~= all.drop_last());
    Some(render_path(rooted, &segs))
}

/// Whether two strings hold the same characters.
pub fn same_text(a: &str, b: &str) -> (r: bool)
    ensures
        r == (a@ == b@),
{
    let n = a.unicode_len();
    if n != b.unicode_len() {
        return false;
    }
    let mut i: usize = 0;
    while i < n
        invariant
            n == a@.len(),
            n == b@.len(),
            i <= n,
            forall|j: int| 0 <= j < i ==> a@[j] == b@[j],
        decreases n - i,
    {
        if a.get_char(i) != b.get_char(i) {
            return false;
        }
        i = i + 1;
    }
    assert(a@ =~= b@);
    true
}

/// The path's last segment, unless that is `.` or `..`.
pub fn file_name(path: &str) -> (r: Option<String>)
    ensures
        match r {
            Some(n) => file_name_of(path@) == Some(n@),
            None => file_name_of(path@) is None,
        },
{
    let segs = get_components(path);
    if segs.len() == 0 {
        return None;
    }
    let last = segs[segs.len() - 1].as_str();
    assert(views(segs@).last() == last@);
    if same_text(last, ".") || same_text(last, "..") {
        proof {
            reveal_strlit(".");
            reveal_strlit("..");
            assert(seq!['.'] =~= "."@);
            assert(seq!['.', '.'] =~= ".."@);
        }
        return None;
    }
    proof {
        reveal_strlit(".");
        reveal_strlit("..");
        assert(seq!['.'] =~= "."@);
        assert(seq!['.', '.'] =~= ".."@);
    }
    Some(String::from_str(last))
}

/// Whether the text holds no separator, neither `/` nor `\`.
pub fn is_bare_name(s: &str) -> (r: bool)
    ensures
        r == is_bare(s@),
{
    let n = s.unicode_len();
    let mut i: usize = 0;
    while i < n
        invariant
            n == s@.len(),
            i <= n,
            forall|j: int| 0 <= j < i ==> s@[j] != '/' && s@[j] != '\\',
        decreases n - i,
    {
        let c = s.get_char(i);
        if c == '/' || c == '\\' {
            return false;
        }
        i = i + 1;
    }
    true
}

/// `k` is the first position at which `present` is false.
pub open spec fn first_absent(present: Seq<bool>, k: int) -> bool {
    0 <= k < present.len() && !present[k] && forall|j: int| 0 <= j < k ==> present[j]
}

/// The directories above `path`, outermost first: the root first where the
/// path is absolute, then each longer run of its segments up to its parent.
pub fn directory_prefixes(path: &str) -> (r: Vec<String>)
    ensures
        views(r@) == ancestor_chain(path@),
{
    let segs = get_components(path);
    let rooted = path.unicode_len() > 0 && path.get_char(0) == '/';
    let mut out: Vec<String> = Vec::new();
    if segs.len() == 0 {
        assert(views(out@) =~= ancestor_chain(path@));
        return out;
    }
    proof {
        reveal_strlit("/");
        assert("/"@ =~= seq!['/']);
    }
    let ghost lead: Seq<Seq<char>> = if rooted {
        seq![seq!['/']]
    } else {
        Seq::empty()
    };
    if rooted {
        out.push(String::from_str("/"));
    }
    assert(views(out@) =~= lead);
    let ghost ps = views(segs@).drop_last();
    let mut cur: Vec<String> = Vec::new();
    let mut i: usize = 0;
    assert(views(cur@) =~= ps.subrange(0, 0));
    assert(views(out@) =~= lead + Seq::new(0, |j: int| render(rooted, ps.subrange(0, j + 1))));
    while i + 1 < segs.len()
        invariant
            views(segs@) == segments(path@),
            segs.len() > 0,
            i + 1 <= segs.len(),
            ps == views(segs@).drop_last(),
            views(cur@) == ps.subrange(0, i as int),
            views(out@) == lead + Seq::new(i as nat, |j: int| render(rooted, ps.subrange(0, j + 1))),
        decreases segs.len() - i,
    {
        let piece = segs[i].clone();
        proof {
            lemma_views_push(cur@, piece);
        }
        cur.push(piece);
        assert(views(cur@) =~= ps.subrange(0, i + 1));
        let text = render_path(rooted, &cur);
        proof {
            lemma_views_push(out@, text);
        }
        out.push(text);
        assert(views(out@) =~= lead + Seq::new(
            (i + 1) as nat,
            |j: int| render(rooted, ps.subrange(0, j + 1)),
        ));
        i = i + 1;
    }
    assert(views(out@) =~= ancestor_chain(path@));
    out
}

/// The first position at which `present` is false, if any.
pub fn first_absent_index(present: &[bool]) -> (r: Option<usize>)
    ensures
        match r {
            Some(k) => first_absent(present@, k as int),
            None => forall|j: int| 0 <= j < present@.len() ==> present@[j],
        },
{
    let mut i: usize = 0;
    while i < present.len()
        invariant
            i <= present@.len(),
            forall|j: int| 0 <= j < i ==> present@[j],
        decreases present@.len() - i,
    {
        if !present[i] {
            return Some(i);
        }
        i = i + 1;
    }
    None
}

/// The first directory above `path` that does not exist, outermost first,
/// or `None` where every directory above it exists. `present` tells, for
/// each entry of `directory_prefixes(path)` in order, whether it exists.
pub fn first_missing_directory_component(path: &str, present: &[bool]) -> (r: Option<String>)
    requires
        present@.len() == ancestor_chain(path@).len(),
    ensures
        match r {
            Some(m) => exists|k: int|
                first_absent(present@, k) && m@ == #[trigger] ancestor_chain(path@)[k],
            None => forall|j: int| 0 <= j < present@.len() ==> present@[j],
        },
{
    match first_absent_index(present) {
        Some(k) => {
            let chain = directory_prefixes(path);
            let m = chain[k].clone();
            assert(m@ == ancestor_chain(path@)[k as int]);
            Some(m)
        },
        None => None,
    }
}

} // verus!
