//! Paths, taken apart the way their platform does it.

use crate::text;
use vstd::prelude::*;
use vstd::slice::slice_subrange;

pub mod model;

verus! {

/// The platform whose paths are meant.
#[derive(Clone, Copy, PartialEq, Eq, Debug, Structural)]
pub enum Platform {
    /// Slashes separate.
    Unix,
    /// Slashes and backslashes separate, and a path may begin with a drive or with a server and its share.
    Windows,
}

/// A path with every separator turned into a slash.
fn slashed(path: &[char], platform: Platform) -> (out: Vec<char>)
    ensures
        out@ == model::slashed(path@, platform),
{
    let mut out: Vec<char> = Vec::new();
    let mut i: usize = 0;
    while i < path.len()
        invariant
            i <= path.len(),
            out@ == model::slashed(path@.take(i as int), platform),
        decreases path.len() - i,
    {
        let c = path[i];
        if platform == Platform::Windows && c == '\\' {
            out.push('/');
        } else {
            out.push(c);
        }
        i += 1;
        assert(out@ =~= model::slashed(path@.take(i as int), platform));
    }
    assert(path@.take(i as int) =~= path@);
    out
}

/// The texts of a list from index `from` up to `to`.
fn span(all: &Vec<Vec<char>>, from: usize, to: usize) -> (out: Vec<Vec<char>>)
    requires
        from <= to <= all@.len(),
    ensures
        text::model::views(out@) == text::model::views(all@).subrange(from as int, to as int),
{
    let mut out: Vec<Vec<char>> = Vec::new();
    let mut i: usize = from;
    while i < to
        invariant
            from <= i <= to <= all@.len(),
            text::model::views(out@) == text::model::views(all@).subrange(from as int, i as int),
        decreases to - i,
    {
        let ghost before = out@;
        let ghost v = text::model::views(all@);
        out.push(text::copy_of(&all[i]));
        assert(text::model::views(out@) =~= text::model::views(before).push(v[i as int]));
        assert(v.subrange(from as int, i + 1) =~= v.subrange(from as int, i as int).push(v[i as int]));
        i += 1;
    }
    out
}

fn has_drive(piece: &[char]) -> (r: bool)
    ensures
        r == model::has_drive(piece@),
{
    piece.len() >= 2 && (('A' <= piece[0] && piece[0] <= 'Z') || ('a' <= piece[0] && piece[0] <= 'z'))
        && piece[1] == ':'
}

/// A path taken apart: its prefix, whether that is a share, and the pieces behind it.
fn parts(path: &[char], platform: Platform) -> (out: (Vec<Vec<char>>, bool, Vec<Vec<char>>))
    ensures
        text::model::views(out.0@) == model::prefix(path@, platform),
        out.1 == (platform == Platform::Windows && model::has_share(model::pieces(path@, platform))),
        text::model::views(out.2@) == model::rest(path@, platform),
{
    let even = slashed(path, platform);
    let all = text::split(&even, '/');
    let ghost v = text::model::views(all@);
    proof {
        text::model::lemma_split_nonempty(even@, '/');
        assert(forall|i: int| 0 <= i < v.len() ==> v[i] == (#[trigger] all@[i])@);
    }
    let none: Vec<Vec<char>> = Vec::new();
    assert(text::model::views(none@) =~= Seq::<Seq<char>>::empty());
    if platform == Platform::Unix {
        return (none, false, all);
    }
    if all.len() >= 4 && all[0].len() == 0 && all[1].len() == 0 && all[2].len() > 0 && all[3].len() > 0 {
        let prefix = span(&all, 2, 4);
        let rest = span(&all, 4, all.len());
        assert(v.subrange(4, v.len() as int) =~= v.skip(4));
        return (prefix, true, rest);
    }
    if has_drive(&all[0]) {
        let mut prefix: Vec<Vec<char>> = Vec::new();
        prefix.push(text::upper(slice_subrange(&all[0], 0, 2)));
        assert(all@[0]@.subrange(0, 2) =~= all@[0]@.take(2));
        assert(text::model::views(prefix@) =~= model::prefix(path@, platform));
        let mut rest: Vec<Vec<char>> = Vec::new();
        rest.push(text::copy_of(slice_subrange(&all[0], 2, all[0].len())));
        assert(all@[0]@.subrange(2, all@[0]@.len() as int) =~= all@[0]@.skip(2));
        let mut behind = span(&all, 1, all.len());
        let ghost first = rest@;
        let ghost others = behind@;
        rest.append(&mut behind);
        assert(text::model::views(rest@) =~= text::model::views(first) + text::model::views(others));
        assert(text::model::views(first) =~= seq![v[0].skip(2)]);
        assert(text::model::views(rest@) =~= model::rest(path@, platform));
        return (prefix, false, rest);
    }
    (none, false, all)
}

/// The components among pieces.
fn components(pieces: &Vec<Vec<char>>) -> (out: Vec<Vec<char>>)
    ensures
        text::model::views(out@) == model::components(text::model::views(pieces@)),
{
    let ghost all = text::model::views(pieces@);
    let mut out: Vec<Vec<char>> = Vec::new();
    let mut i: usize = 0;
    assert(text::model::views(out@) =~= model::components(all.take(0)));
    while i < pieces.len()
        invariant
            i <= pieces.len(),
            text::model::views(pieces@) == all,
            text::model::views(out@) == model::components(all.take(i as int)),
        decreases pieces.len() - i,
    {
        let piece = &pieces[i];
        assert(piece@ == all[i as int]);
        assert(all.take(i + 1).drop_last() =~= all.take(i as int));
        assert(all.take(i + 1).last() == piece@);
        let dot = is_dot(piece);
        if piece.len() != 0 && !dot {
            let ghost before = out@;
            out.push(text::copy_of(piece));
            assert(text::model::views(out@) =~= text::model::views(before).push(piece@));
        }
        i += 1;
    }
    assert(all.take(i as int) =~= all);
    out
}

fn is_dot(piece: &[char]) -> (r: bool)
    ensures
        r == (piece@ == seq!['.']),
{
    let r = piece.len() == 1 && piece[0] == '.';
    proof {
        if r {
            assert(piece@ =~= seq!['.']);
        }
    }
    r
}

/// The last component of a path, if it names a file.
pub fn file_name(path: &[char], platform: Platform) -> (name: Option<Vec<char>>)
    ensures
        match name {
            Some(name) => model::file_name(path@, platform) == Some(name@),
            None => model::file_name(path@, platform) is None,
        },
{
    let (_, _, rest) = parts(path, platform);
    let all = components(&rest);
    let ghost v = text::model::views(all@);
    if all.len() == 0 {
        return None;
    }
    let last = &all[all.len() - 1];
    assert(v.last() == last@);
    let up = last.len() == 2 && last[0] == '.' && last[1] == '.';
    assert(up == (last@ == seq!['.', '.'])) by {
        if up {
            assert(last@ =~= seq!['.', '.']);
        }
    }
    if up {
        None
    } else {
        Some(text::copy_of(last))
    }
}

/// What follows the last separator of a path and its prefix.
pub fn last_piece(path: &[char], platform: Platform) -> (piece: Option<Vec<char>>)
    ensures
        match piece {
            Some(piece) => model::rest(path@, platform).len() > 0 && piece@ == model::rest(
                path@,
                platform,
            ).last(),
            None => model::rest(path@, platform).len() == 0,
        },
{
    let (_, _, rest) = parts(path, platform);
    let ghost v = text::model::views(rest@);
    if rest.len() == 0 {
        None
    } else {
        assert(v.last() == rest@[rest@.len() - 1]@);
        Some(text::copy_of(&rest[rest.len() - 1]))
    }
}

fn same_texts(a: &Vec<Vec<char>>, b: &Vec<Vec<char>>) -> (r: bool)
    ensures
        r == (text::model::views(a@) == text::model::views(b@)),
{
    let ghost va = text::model::views(a@);
    let ghost vb = text::model::views(b@);
    if a.len() != b.len() {
        assert(va.len() != vb.len());
        return false;
    }
    let mut i: usize = 0;
    while i < a.len()
        invariant
            i <= a.len(),
            a.len() == b.len(),
            va == text::model::views(a@),
            vb == text::model::views(b@),
            forall|j: int| 0 <= j < i ==> (#[trigger] va[j]) == vb[j],
        decreases a.len() - i,
    {
        if !text::same(&a[i], &b[i]) {
            assert(va[i as int] != vb[i as int]);
            return false;
        }
        i += 1;
    }
    assert(va =~= vb);
    true
}

/// Whether two paths are written the same, repeated and trailing separators and `.` aside.
pub fn is_path(path: &str, other: &str, platform: Platform) -> (r: bool)
    ensures
        r == model::same(path@, other@, platform),
{
    let a = text::chars_of(path);
    let b = text::chars_of(other);
    let (prefix_a, share_a, rest_a) = parts(&a, platform);
    let (prefix_b, share_b, rest_b) = parts(&b, platform);
    proof {
        assert(forall|i: int|
            0 <= i < rest_a@.len() ==> text::model::views(rest_a@)[i] == (#[trigger] rest_a@[i])@);
        assert(forall|i: int|
            0 <= i < rest_b@.len() ==> text::model::views(rest_b@)[i] == (#[trigger] rest_b@[i])@);
    }
    let root_a = share_a || (rest_a.len() > 1 && rest_a[0].len() == 0);
    let root_b = share_b || (rest_b.len() > 1 && rest_b[0].len() == 0);
    let dot_a = !root_a && rest_a.len() > 0 && is_dot(&rest_a[0]);
    let dot_b = !root_b && rest_b.len() > 0 && is_dot(&rest_b[0]);
    same_texts(&prefix_a, &prefix_b) && root_a == root_b && dot_a == dot_b && same_texts(
        &components(&rest_a),
        &components(&rest_b),
    )
}

} // verus!
