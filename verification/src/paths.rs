//! The `std::path` operations that the scans rely on, over paths held as
//! text, on Unix, the platform this program runs on. Joining and equality
//! are stated in full, and equality is computed here; what the others
//! return follows the component rules of `std::path`, which this crate does
//! not restate, and is named below.

use std::path::{Path, PathBuf};
use crate::text::chars_of;
use vstd::prelude::*;

verus! {

/// The final component of `path` as `Path::file_name` gives it, if any.
pub uninterp spec fn path_file_name(path: Seq<char>) -> Option<Seq<char>>;

/// What is left of `path` once the leading components `base` are taken
/// off, as `Path::strip_prefix` gives it; `None` where `base` does not lead.
pub uninterp spec fn path_strip_prefix(path: Seq<char>, base: Seq<char>) -> Option<Seq<char>>;

/// `base` extended by `rel`, as `PathBuf::push` builds it on Unix: an
/// absolute `rel` replaces `base`; otherwise `rel` follows `base`, with a
/// slash between them where `base` is not empty and does not end in one.
pub open spec fn path_join(base: Seq<char>, rel: Seq<char>) -> Seq<char> {
    if rel.len() > 0 && rel[0] == '/' {
        rel
    } else if base.len() > 0 && base.last() != '/' {
        base + seq!['/'] + rel
    } else {
        base + rel
    }
}

/// `path` without its final component, as `Path::parent` gives it, if any.
pub uninterp spec fn path_parent(path: Seq<char>) -> Option<Seq<char>>;

/// Whether a path begins at the root.
pub open spec fn has_root(p: Seq<char>) -> bool {
    p.len() > 0 && p[0] == '/'
}

/// Whether a path begins with a current-directory component: it does not
/// begin at the root, and its first part is a lone dot.
pub open spec fn leading_cur_dir(p: Seq<char>) -> bool {
    !has_root(p) && p.len() > 0 && p[0] == '.' && (p.len() == 1 || p[1] == '/')
}

/// A part between slashes that `Path::components` keeps as a component of
/// its own: not empty and not a lone dot.
pub open spec fn kept_part(part: Seq<char>) -> bool {
    part.len() > 0 && part != seq!['.']
}

/// `p` read one character at a time, split at slashes: the parts already
/// ended by a slash that are kept, and the part still open.
pub open spec fn part_scan(p: Seq<char>) -> (Seq<Seq<char>>, Seq<char>)
    decreases p.len(),
{
    if p.len() == 0 {
        (seq![], seq![])
    } else {
        let (done, open) = part_scan(p.drop_last());
        if p.last() == '/' {
            if kept_part(open) {
                (done.push(open), seq![])
            } else {
                (done, seq![])
            }
        } else {
            (done, open.push(p.last()))
        }
    }
}

/// The parts of `p` that are components besides a root or a leading
/// current directory: the parts between slashes, with empty ones and lone
/// dots dropped, in order.
pub open spec fn path_parts(p: Seq<char>) -> Seq<Seq<char>> {
    let (done, open) = part_scan(p);
    if kept_part(open) {
        done.push(open)
    } else {
        done
    }
}

/// Whether `Path`'s equality holds of `a` and `b` on Unix: they have the
/// same components, that is, both or neither begin at the root, both or
/// neither begin with a current directory, and their other parts agree.
pub open spec fn paths_equal(a: Seq<char>, b: Seq<char>) -> bool {
    &&& has_root(a) == has_root(b)
    &&& leading_cur_dir(a) == leading_cur_dir(b)
    &&& path_parts(a) == path_parts(b)
}

/// Calls `Path::file_name` on `path`. Claimed: the result is
/// `path_file_name(path)`, the name taken as text.
#[verifier::external_body]
pub(crate) fn file_name(path: &str) -> (r: Option<String>)
    ensures
        r matches Some(n) ==> path_file_name(path@) == Some(n@),
        r is None ==> path_file_name(path@) is None,
{
    Path::new(path).file_name().map(|n| n.to_string_lossy().into_owned())
}

/// Calls `Path::strip_prefix` on `path` and `base`. Claimed: the result is
/// `path_strip_prefix(path, base)`; the error of `strip_prefix` becomes `None`.
#[verifier::external_body]
pub(crate) fn strip_prefix(path: &str, base: &str) -> (r: Option<String>)
    ensures
        r matches Some(rel) ==> path_strip_prefix(path@, base@) == Some(rel@),
        r is None ==> path_strip_prefix(path@, base@) is None,
{
    Path::new(path).strip_prefix(base).ok().map(|rel| rel.to_string_lossy().into_owned())
}

/// Calls `PathBuf::push` on a path buffer made from `base`, with `rel`.
/// Claimed: the result, as text, is `path_join(base, rel)`: on Unix an
/// absolute `rel` replaces the path, and a relative one is appended after a
/// separator unless the path is empty or already ends in one.
#[verifier::external_body]
pub(crate) fn join(base: &str, rel: &str) -> (r: String)
    ensures
        r@ == path_join(base@, rel@),
{
    let mut joined = PathBuf::from(base);
    joined.push(rel);
    joined.to_string_lossy().into_owned()
}

/// Calls `Path::parent` on `path`. Claimed: the result is
/// `path_parent(path)`, the parent taken as text.
#[verifier::external_body]
pub(crate) fn parent(path: &str) -> (r: Option<String>)
    ensures
        r matches Some(p) ==> path_parent(path@) == Some(p@),
        r is None ==> path_parent(path@) is None,
{
    Path::new(path).parent().map(|p| p.to_string_lossy().into_owned())
}

/// The texts of a sequence of character vectors.
pub open spec fn char_views(v: Seq<Vec<char>>) -> Seq<Seq<char>> {
    v.map_values(|x: Vec<char>| x@)
}

/// The parts of `p` as `path_parts` gives them.
pub fn parts_of(p: &[char]) -> (parts: Vec<Vec<char>>)
    ensures
        char_views(parts@) == path_parts(p@),
{
    let mut done: Vec<Vec<char>> = Vec::new();
    let mut open: Vec<char> = Vec::new();
    let mut i: usize = 0;
    while i < p.len()
        invariant
            i <= p@.len(),
            (char_views(done@), open@) == part_scan(p@.take(i as int)),
        decreases p.len() - i,
    {
        assert(p@.take(i + 1).drop_last() == p@.take(i as int));
        let c = p[i];
        if c == '/' {
            let keep = open.len() > 0 && !(open.len() == 1 && open[0] == '.');
            assert(keep == kept_part(open@)) by {
                if open@.len() == 1 && open@ != seq!['.'] {
                    assert(open@ =~= seq![open@[0]]);
                }
            }
            if keep {
                done.push(open);
            }
            open = Vec::new();
            assert(char_views(done@) == part_scan(p@.take(i + 1)).0);
        } else {
            open.push(c);
            assert(char_views(done@) == part_scan(p@.take(i + 1)).0);
        }
        i += 1;
    }
    assert(p@.take(p@.len() as int) == p@);
    let keep = open.len() > 0 && !(open.len() == 1 && open[0] == '.');
    assert(keep == kept_part(open@)) by {
        if open@.len() == 1 && open@ != seq!['.'] {
            assert(open@ =~= seq![open@[0]]);
        }
    }
    if keep {
        done.push(open);
        assert(char_views(done@) == path_parts(p@));
    }
    done
}

/// Whether two character vectors hold the same characters.
pub fn same_chars(a: &Vec<char>, b: &Vec<char>) -> (r: bool)
    ensures
        r == (a@ == b@),
{
    if a.len() != b.len() {
        return false;
    }
    let mut i: usize = 0;
    while i < a.len()
        invariant
            a@.len() == b@.len(),
            i <= a@.len(),
            forall|j: int| 0 <= j < i ==> a@[j] == b@[j],
        decreases a.len() - i,
    {
        if a[i] != b[i] {
            return false;
        }
        i += 1;
    }
    assert(a@ =~= b@);
    true
}

/// Whether `a` and `b` are equal as paths, as `Path`'s `==` compares them
/// on Unix: by their components, so that repeated slashes, a trailing
/// slash and inner lone dots make no difference.
pub fn same_path(a: &str, b: &str) -> (r: bool)
    ensures
        r == paths_equal(a@, b@),
{
    let va = chars_of(a);
    let vb = chars_of(b);
    let root_a = va.len() > 0 && va[0] == '/';
    let root_b = vb.len() > 0 && vb[0] == '/';
    let cur_a = !root_a && va.len() > 0 && va[0] == '.' && (va.len() == 1 || va[1] == '/');
    let cur_b = !root_b && vb.len() > 0 && vb[0] == '.' && (vb.len() == 1 || vb[1] == '/');
    assert(root_a == has_root(a@) && root_b == has_root(b@));
    assert(cur_a == leading_cur_dir(a@));
    assert(cur_b == leading_cur_dir(b@));
    if root_a != root_b || cur_a != cur_b {
        return false;
    }
    let pa = parts_of(va.as_slice());
    let pb = parts_of(vb.as_slice());
    assert(char_views(pa@).len() == pa@.len() && char_views(pb@).len() == pb@.len());
    if pa.len() != pb.len() {
        assert(path_parts(a@).len() != path_parts(b@).len());
        return false;
    }
    let mut i: usize = 0;
    while i < pa.len()
        invariant
            char_views(pa@) == path_parts(a@),
            char_views(pb@) == path_parts(b@),
            pa@.len() == pb@.len(),
            i <= pa@.len(),
            forall|j: int| 0 <= j < i ==> char_views(pa@)[j] == char_views(pb@)[j],
        decreases pa.len() - i,
    {
        if !same_chars(&pa[i], &pb[i]) {
            assert(char_views(pa@)[i as int] != char_views(pb@)[i as int]);
            return false;
        }
        i += 1;
    }
    assert(char_views(pa@) =~= char_views(pb@));
    true
}

/// A directory is never equal, as a path, to one of its entries: joining a
/// name that is not empty, holds no slash and is not a lone dot adds a
/// component.
pub proof fn lemma_entry_differs_from_dir(p: Seq<char>, name: Seq<char>)
    requires
        name.len() > 0,
        name != seq!['.'],
        forall|i: int| 0 <= i < name.len() ==> name[i] != '/',
    ensures
        path_parts(path_join(p, name)) == path_parts(p).push(name),
        !paths_equal(p, path_join(p, name)),
{
    if p.len() > 0 && p.last() != '/' {
        let x = p + seq!['/'];
        assert(x.drop_last() == p);
        lemma_part_scan_append(x, name);
        assert(path_join(p, name) == x + name);
    } else {
        if p.len() > 0 {
            assert(p == p.drop_last().push(p.last()));
        }
        lemma_part_scan_append(p, name);
    }
    assert(path_parts(path_join(p, name)).len() == path_parts(p).len() + 1);
}

/// Reading characters without slashes after a point where no part is open
/// leaves them all open.
pub proof fn lemma_part_scan_append(x: Seq<char>, c: Seq<char>)
    requires
        part_scan(x).1.len() == 0,
        forall|i: int| 0 <= i < c.len() ==> c[i] != '/',
    ensures
        part_scan(x + c) == (part_scan(x).0, c),
    decreases c.len(),
{
    if c.len() == 0 {
        assert(x + c == x);
        assert(part_scan(x).1 =~= c);
    } else {
        lemma_part_scan_append(x, c.drop_last());
        assert((x + c).drop_last() == x + c.drop_last());
        assert((x + c).last() == c.last());
        assert(c.drop_last().push(c.last()) == c);
    }
}

} // verus!
