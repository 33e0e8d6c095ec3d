//! Paths as sequences of components. A path is a text whose pieces are
//! separated by `/`. Empty pieces and pieces `.` that are not the first
//! carry no meaning; a leading `/` is a component of its own, the root.

use vstd::prelude::*;
use crate::text::{
    append, chars_of, copy_of, join, join_with, same, split, split_on, string_of, views,
};

verus! {

/// The root component.
pub open spec fn root_mark() -> Seq<char> {
    seq!['/']
}

/// Whether the path starts at the root.
pub open spec fn is_rooted(path: Seq<char>) -> bool {
    path.len() > 0 && path[0] == '/'
}

/// Whether the piece at index `i` is a component: it is not empty, and it is
/// not `.` unless it is the first piece.
pub open spec fn is_kept(pieces: Seq<Seq<char>>, i: int) -> bool {
    pieces[i].len() > 0 && (pieces[i] != seq!['.'] || i == 0)
}

/// The components among the first `n` pieces, in order.
pub open spec fn kept_upto(pieces: Seq<Seq<char>>, n: int) -> Seq<Seq<char>>
    decreases n,
{
    if n <= 0 {
        Seq::empty()
    } else {
        let before = kept_upto(pieces, n - 1);
        if is_kept(pieces, n - 1) {
            before.push(pieces[n - 1])
        } else {
            before
        }
    }
}

/// The components of a path: the root, where the path starts there, and
/// then the pieces that carry meaning.
pub open spec fn components(path: Seq<char>) -> Seq<Seq<char>> {
    let pieces = split(path, '/');
    let named = kept_upto(pieces, pieces.len() as int);
    if is_rooted(path) {
        seq![root_mark()] + named
    } else {
        named
    }
}

/// The text of a sequence of components: the components joined by `/`, the
/// root written once.
pub open spec fn render(parts: Seq<Seq<char>>) -> Seq<char> {
    if parts.len() > 0 && parts[0] == root_mark() {
        root_mark() + join(parts.skip(1), '/')
    } else {
        join(parts, '/')
    }
}

/// Whether the components of `root` begin those of `path`.
pub open spec fn lies_under(path: Seq<char>, root: Seq<char>) -> bool {
    components(root).is_prefix_of(components(path))
}

/// What of `path` follows `root`.
pub open spec fn relative_to(path: Seq<char>, root: Seq<char>) -> Seq<char> {
    render(components(path).skip(components(root).len() as int))
}

/// Whether two paths have the same components.
pub open spec fn same_path(a: Seq<char>, b: Seq<char>) -> bool {
    components(a) == components(b)
}

/// The components of a path.
pub fn components_of(path: &[char]) -> (r: Vec<Vec<char>>)
    ensures
        views(r@) == components(path@),
{
    let pieces = split_on(path, '/');
    let mut out: Vec<Vec<char>> = Vec::new();
    if path.len() > 0 && path[0] == '/' {
        let mut mark: Vec<char> = Vec::new();
        mark.push('/');
        assert(mark@ =~= root_mark());
        out.push(mark);
    }
    let ghost lead = views(out@);
    let mut i: usize = 0;
    assert(views(out@) =~= lead + kept_upto(views(pieces@), 0));
    while i < pieces.len()
        invariant
            i <= pieces.len(),
            views(out@) == lead + kept_upto(views(pieces@), i as int),
        decreases pieces.len() - i,
    {
        let piece = &pieces[i];
        let ghost before = views(out@);
        assert(views(pieces@)[i as int] == piece@);
        let is_dot = piece.len() == 1 && piece[0] == '.';
        assert(is_dot == (piece@ == seq!['.'])) by {
            if is_dot {
                assert(piece@ =~= seq!['.']);
            }
        }
        if piece.len() > 0 && (!is_dot || i == 0) {
            out.push(copy_of(piece.as_slice()));
            assert(views(out@) =~= before.push(piece@));
            assert(views(out@) =~= lead + kept_upto(views(pieces@), i + 1));
        }
        i += 1;
    }
    assert(lead =~= if is_rooted(path@) {
        seq![root_mark()]
    } else {
        Seq::empty()
    });
    out
}

/// The text of the components from index `from` on.
pub fn render_from(parts: &Vec<Vec<char>>, from: usize) -> (r: Vec<char>)
    requires
        from <= parts.len(),
    ensures
        r@ == render(views(parts@).skip(from as int)),
{
    let mut rest: Vec<Vec<char>> = Vec::new();
    let mut i: usize = from;
    while i < parts.len()
        invariant
            from <= i <= parts.len(),
            views(rest@) == views(parts@).subrange(from as int, i as int),
        decreases parts.len() - i,
    {
        let ghost before = views(rest@);
        rest.push(copy_of(parts[i].as_slice()));
        assert(views(rest@) =~= before.push(parts@[i as int]@));
        assert(views(rest@) =~= views(parts@).subrange(from as int, i + 1));
        i += 1;
    }
    assert(views(rest@) =~= views(parts@).skip(from as int));
    render_parts(&rest)
}

/// The text of a sequence of components.
pub fn render_parts(parts: &Vec<Vec<char>>) -> (r: Vec<char>)
    ensures
        r@ == render(views(parts@)),
{
    let rooted = parts.len() > 0 && parts[0].len() == 1 && parts[0][0] == '/';
    assert(rooted == (views(parts@).len() > 0 && views(parts@)[0] == root_mark())) by {
        if parts.len() > 0 {
            assert(views(parts@)[0] == parts@[0]@);
            if rooted {
                assert(parts@[0]@ =~= root_mark());
            }
        }
    }
    if rooted {
        let mut tail: Vec<Vec<char>> = Vec::new();
        let mut i: usize = 1;
        while i < parts.len()
            invariant
                1 <= i <= parts.len(),
                views(tail@) == views(parts@).subrange(1, i as int),
            decreases parts.len() - i,
        {
            let ghost before = views(tail@);
            tail.push(copy_of(parts[i].as_slice()));
            assert(views(tail@) =~= before.push(parts@[i as int]@));
            assert(views(tail@) =~= views(parts@).subrange(1, i + 1));
            i += 1;
        }
        assert(views(tail@) =~= views(parts@).skip(1));
        let mut out: Vec<char> = Vec::new();
        out.push('/');
        let joined = join_with(&tail, '/');
        append(&mut out, joined.as_slice());
        assert(out@ =~= root_mark() + join(views(parts@).skip(1), '/'));
        out
    } else {
        join_with(parts, '/')
    }
}

/// Whether the pieces of `a` begin those of `b`.
pub fn begins(a: &Vec<Vec<char>>, b: &Vec<Vec<char>>) -> (r: bool)
    ensures
        r == views(a@).is_prefix_of(views(b@)),
{
    if a.len() > b.len() {
        return false;
    }
    let mut i: usize = 0;
    while i < a.len()
        invariant
            i <= a.len() <= b.len(),
            forall|j: int| 0 <= j < i ==> a@[j]@ == b@[j]@,
        decreases a.len() - i,
    {
        if !same(a[i].as_slice(), b[i].as_slice()) {
            assert(views(a@)[i as int] != views(b@)[i as int]);
            return false;
        }
        i += 1;
    }
    assert(views(a@) =~= views(b@).subrange(0, a.len() as int));
    true
}

/// Whether the components of `root` begin those of `path`.
pub fn is_under(path: &str, root: &str) -> (r: bool)
    ensures
        r == lies_under(path@, root@),
{
    let p = chars_of(path);
    let q = chars_of(root);
    let pc = components_of(p.as_slice());
    let qc = components_of(q.as_slice());
    begins(&qc, &pc)
}

/// Whether two paths have the same components.
pub fn paths_equal(a: &[char], b: &[char]) -> (r: bool)
    ensures
        r == same_path(a@, b@),
{
    let ac = components_of(a);
    let bc = components_of(b);
    let r = ac.len() == bc.len() && begins(&ac, &bc);
    assert(r == (views(ac@) == views(bc@))) by {
        assert(views(ac@).len() == ac@.len());
        assert(views(bc@).len() == bc@.len());
        if r {
            assert(views(ac@) =~= views(bc@));
        } else if views(ac@) == views(bc@) {
            assert(views(ac@).is_prefix_of(views(bc@)));
        }
    }
    r
}

/// The path `tail` seen from `base`: `tail` itself where it starts at the
/// root; else `base`, a `/` unless `base` is empty or ends in one, and `tail`.
pub open spec fn joined(base: Seq<char>, tail: Seq<char>) -> Seq<char> {
    if is_rooted(tail) {
        tail
    } else if base.len() == 0 || base.last() == '/' {
        base + tail
    } else {
        base + seq!['/'] + tail
    }
}

/// The path `tail` seen from `base`.
pub fn join_chars(base: &[char], tail: &[char]) -> (r: Vec<char>)
    ensures
        r@ == joined(base@, tail@),
{
    if tail.len() > 0 && tail[0] == '/' {
        return copy_of(tail);
    }
    let mut out = copy_of(base);
    if base.len() > 0 && base[base.len() - 1] != '/' {
        out.push('/');
    }
    append(&mut out, tail);
    assert(out@ =~= joined(base@, tail@));
    out
}

/// The path `tail` seen from `base`.
pub fn join_path(base: &str, tail: &str) -> (r: String)
    ensures
        r@ == joined(base@, tail@),
{
    let b = chars_of(base);
    let t = chars_of(tail);
    let out = join_chars(b.as_slice(), t.as_slice());
    string_of(out.as_slice())
}

/// What of `path` follows `root`, as a text: the components of `path` after
/// those of `root`, joined by `/`.
pub fn path_to_relative(path: &str, root: &str) -> (r: String)
    requires
        lies_under(path@, root@),
    ensures
        r@ == relative_to(path@, root@),
{
    let p = chars_of(path);
    let q = chars_of(root);
    let pc = components_of(p.as_slice());
    let qc = components_of(q.as_slice());
    let rest = render_from(&pc, qc.len());
    string_of(rest.as_slice())
}

} // verus!
