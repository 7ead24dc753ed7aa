//! What a path is made of: a prefix, on Windows, and the pieces that its separators leave.

use crate::path::Platform;
use crate::text::model as text;
use vstd::prelude::*;

verus! {

/// A character, with every separator turned into a slash: on Windows a backslash separates too.
pub open spec fn slash(c: char, platform: Platform) -> char {
    if platform == Platform::Windows && c == '\\' {
        '/'
    } else {
        c
    }
}

/// A path with every separator turned into a slash.
pub open spec fn slashed(path: Seq<char>, platform: Platform) -> Seq<char> {
    path.map_values(|c: char| slash(c, platform))
}

/// What stands between the separators of a path.
pub open spec fn pieces(path: Seq<char>, platform: Platform) -> Seq<Seq<char>> {
    text::split(slashed(path, platform), '/')
}

/// Whether a character is a letter from `A` to `Z`, in either case.
pub open spec fn is_letter(c: char) -> bool {
    ('A' <= c && c <= 'Z') || ('a' <= c && c <= 'z')
}

/// Whether a piece begins with a drive, such as `C:`.
pub open spec fn has_drive(piece: Seq<char>) -> bool {
    piece.len() >= 2 && is_letter(piece[0]) && piece[1] == ':'
}

/// Whether pieces begin with a share: two separators, the name of a server and the name of the share.
pub open spec fn has_share(pieces: Seq<Seq<char>>) -> bool {
    pieces.len() >= 4 && pieces[0].len() == 0 && pieces[1].len() == 0 && pieces[2].len() > 0
        && pieces[3].len() > 0
}

/// The prefix of a path: nothing but on Windows, where it is a drive or a server and its share.
pub open spec fn prefix(path: Seq<char>, platform: Platform) -> Seq<Seq<char>> {
    let all = pieces(path, platform);
    if platform == Platform::Unix {
        Seq::empty()
    } else if has_share(all) {
        all.subrange(2, 4)
    } else if has_drive(all[0]) {
        seq![text::upper(all[0].take(2))]
    } else {
        Seq::empty()
    }
}

/// The pieces of a path behind its prefix.
pub open spec fn rest(path: Seq<char>, platform: Platform) -> Seq<Seq<char>> {
    let all = pieces(path, platform);
    if platform == Platform::Unix {
        all
    } else if has_share(all) {
        all.skip(4)
    } else if has_drive(all[0]) {
        all.update(0, all[0].skip(2))
    } else {
        all
    }
}

/// Whether a path starts at a root. A share is one.
pub open spec fn rooted(path: Seq<char>, platform: Platform) -> bool {
    ||| platform == Platform::Windows && has_share(pieces(path, platform))
    ||| rest(path, platform).len() > 1 && rest(path, platform)[0].len() == 0
}

/// Whether a path starts at `.`.
pub open spec fn dotted(path: Seq<char>, platform: Platform) -> bool {
    !rooted(path, platform) && rest(path, platform).len() > 0 && rest(path, platform)[0] == seq!['.']
}

/// The components among pieces: empty ones and `.` are none.
pub open spec fn components(pieces: Seq<Seq<char>>) -> Seq<Seq<char>>
    decreases pieces.len(),
{
    if pieces.len() == 0 {
        Seq::empty()
    } else {
        let front = components(pieces.drop_last());
        if pieces.last().len() == 0 || pieces.last() == seq!['.'] {
            front
        } else {
            front.push(pieces.last())
        }
    }
}

/// Whether two paths are written the same, repeated and trailing separators and `.` aside.
pub open spec fn same(a: Seq<char>, b: Seq<char>, platform: Platform) -> bool {
    &&& prefix(a, platform) == prefix(b, platform)
    &&& rooted(a, platform) == rooted(b, platform)
    &&& dotted(a, platform) == dotted(b, platform)
    &&& components(rest(a, platform)) == components(rest(b, platform))
}

/// The last component of a path, if it names a file: there is none where the last component is `..`.
pub open spec fn file_name(path: Seq<char>, platform: Platform) -> Option<Seq<char>> {
    let all = components(rest(path, platform));
    if all.len() > 0 && all.last() != seq!['.', '.'] {
        Some(all.last())
    } else {
        None
    }
}

/// A file name cannot lead anywhere else: it is not empty, not `.` or `..`, and holds no separator.
pub proof fn law_file_name_stays_put(path: Seq<char>, platform: Platform)
    ensures
        file_name(path, platform) matches Some(name) ==> {
            &&& name.len() > 0
            &&& name != seq!['.']
            &&& name != seq!['.', '.']
            &&& forall|j: int| 0 <= j < name.len() ==> slash(#[trigger] name[j], platform) != '/'
        },
{
    let all = pieces(path, platform);
    let behind = rest(path, platform);
    lemma_components(behind);
    if let Some(name) = file_name(path, platform) {
        assert(components(behind).contains(name));
        assert(behind.contains(name));
        let i = choose|i: int| 0 <= i < behind.len() && behind[i] == name;
        assert forall|j: int| 0 <= j < name.len() implies slash(#[trigger] name[j], platform) != '/' by {
            lemma_pieces_clean(path, platform);
            if platform == Platform::Windows && has_share(all) {
                assert(all[i + 4] == name);
                assert(clean(all[i + 4], platform));
            } else if platform == Platform::Windows && has_drive(all[0]) && i == 0 {
                assert(name[j] == all[0][j + 2]);
                assert(clean(all[0], platform));
            } else {
                assert(all[i] == name);
                assert(clean(all[i], platform));
            }
        }
    }
}

/// Whether a piece holds no separator.
pub open spec fn clean(piece: Seq<char>, platform: Platform) -> bool {
    forall|j: int| 0 <= j < piece.len() ==> slash(#[trigger] piece[j], platform) != '/'
}

proof fn lemma_pieces_clean(path: Seq<char>, platform: Platform)
    ensures
        forall|i: int|
            0 <= i < pieces(path, platform).len() ==> clean(#[trigger] pieces(path, platform)[i], platform),
{
    let s = slashed(path, platform);
    let all = pieces(path, platform);
    text::lemma_split_clean(s, '/');
    assert forall|i: int| 0 <= i < all.len() implies clean(#[trigger] all[i], platform) by {
        assert(all.contains(all[i]));
        if platform == Platform::Windows {
            lemma_split_keeps_out(s, '/', '\\');
        }
        let piece = all[i];
        assert forall|j: int| 0 <= j < piece.len() implies slash(#[trigger] piece[j], platform) != '/' by {
            assert(all.contains(piece));
        }
    }
}

/// A character that a text does not hold, none of its pieces holds.
proof fn lemma_split_keeps_out(s: Seq<char>, c: char, out: char)
    requires
        forall|j: int| 0 <= j < s.len() ==> (#[trigger] s[j]) != out,
    ensures
        forall|i: int, j: int|
            0 <= i < text::split(s, c).len() && 0 <= j < text::split(s, c)[i].len() ==> (
            #[trigger] text::split(s, c)[i][j]) != out,
    decreases s.len(),
{
    text::lemma_position(s, c);
    let p = text::position(s, c) as int;
    if p < s.len() {
        lemma_split_keeps_out(s.skip(p + 1), c, out);
        assert forall|i: int, j: int|
            0 <= i < text::split(s, c).len() && 0 <= j < text::split(s, c)[i].len() implies (
        #[trigger] text::split(s, c)[i][j]) != out by {
            if i > 0 {
                assert(text::split(s, c)[i] == text::split(s.skip(p + 1), c)[i - 1]);
            } else {
                assert(text::split(s, c)[i][j] == s[j]);
            }
        }
    }
}

proof fn lemma_components(pieces: Seq<Seq<char>>)
    ensures
        forall|name: Seq<char>| #[trigger]
            components(pieces).contains(name) ==> pieces.contains(name) && name.len() > 0 && name
                != seq!['.'],
    decreases pieces.len(),
{
    if pieces.len() > 0 {
        let front = pieces.drop_last();
        lemma_components(front);
        assert forall|name: Seq<char>| #[trigger] components(pieces).contains(name) implies pieces.contains(
            name,
        ) && name.len() > 0 && name != seq!['.'] by {
            let i = choose|i: int| 0 <= i < components(pieces).len() && components(pieces)[i] == name;
            if i < components(front).len() {
                assert(components(front)[i] == name);
                assert(components(front).contains(name));
                let k = choose|k: int| 0 <= k < front.len() && front[k] == name;
                assert(pieces[k] == name);
            } else {
                assert(name == pieces.last());
                assert(pieces[pieces.len() - 1] == name);
            }
        }
    }
}

/// Whatever stands before it, the last component of a path is its file name, and slashes and `.` behind it do
/// not matter.
pub proof fn law_last_component_is_the_file_name(dir: Seq<char>, name: Seq<char>)
    requires
        name.len() > 0,
        name != seq!['.'],
        name != seq!['.', '.'],
        forall|j: int| 0 <= j < name.len() ==> (#[trigger] name[j]) != '/',
    ensures
        file_name(dir + seq!['/'] + name, Platform::Unix) == Some(name),
        file_name(dir + seq!['/'] + name + seq!['/'], Platform::Unix) == Some(name),
        file_name(dir + seq!['/'] + name + seq!['/', '.'], Platform::Unix) == Some(name),
        file_name(dir + seq!['/', '.', '.'], Platform::Unix) is None,
{
    let front = text::split(dir, '/');
    lemma_split_behind(dir, name);
    let up = seq!['.', '.'];
    lemma_split_behind(dir, up);
    let path = dir + seq!['/'] + name;
    let none = Seq::<char>::empty();
    lemma_split_behind(path, none);
    assert(path + seq!['/'] + none =~= path + seq!['/']);
    let dot = seq!['.'];
    lemma_split_behind(path, dot);
    assert(path + seq!['/'] + dot =~= path + seq!['/', '.']);
    assert(dir + seq!['/'] + up =~= dir + seq!['/', '.', '.']);
    lemma_unix_pieces(path);
    lemma_unix_pieces(path + seq!['/']);
    lemma_unix_pieces(path + seq!['/', '.']);
    lemma_unix_pieces(dir + seq!['/', '.', '.']);
    let pieces = front.push(name);
    assert(pieces.drop_last() =~= front);
    assert(components(pieces) == components(front).push(name));
    assert(pieces.push(none).drop_last() =~= pieces);
    assert(components(pieces.push(none)) == components(pieces));
    assert(pieces.push(dot).drop_last() =~= pieces);
    assert(components(pieces.push(dot)) == components(pieces));
    assert(front.push(up).drop_last() =~= front);
    assert(up.len() == 2);
    assert(components(front.push(up)) == components(front).push(up));
}

proof fn lemma_unix_pieces(path: Seq<char>)
    ensures
        rest(path, Platform::Unix) == text::split(path, '/'),
{
    assert(slashed(path, Platform::Unix) =~= path);
}

/// The pieces of a path that a last piece was appended to.
proof fn lemma_split_behind(s: Seq<char>, t: Seq<char>)
    requires
        forall|j: int| 0 <= j < t.len() ==> (#[trigger] t[j]) != '/',
    ensures
        text::split(s + seq!['/'] + t, '/') == text::split(s, '/').push(t),
    decreases s.len(),
{
    text::lemma_position(s, '/');
    let p = text::position(s, '/') as int;
    let whole = s + seq!['/'] + t;
    if p < s.len() {
        assert forall|j: int| 0 <= j < p implies (#[trigger] whole[j]) != '/' by {
            assert(whole[j] == s[j]);
        }
        text::lemma_position_is(whole, '/', p);
        assert(whole.take(p) =~= s.take(p));
        assert(whole.skip(p + 1) =~= s.skip(p + 1) + seq!['/'] + t);
        lemma_split_behind(s.skip(p + 1), t);
        assert(text::split(whole, '/') =~= text::split(s, '/').push(t));
    } else {
        assert forall|j: int| 0 <= j < s.len() implies (#[trigger] whole[j]) != '/' by {
            assert(whole[j] == s[j]);
        }
        text::lemma_position_is(whole, '/', s.len() as int);
        assert(whole.take(s.len() as int) =~= s);
        assert(whole.skip(s.len() as int + 1) =~= t);
        text::lemma_position_is(t, '/', t.len() as int);
        assert(text::split(t, '/') =~= seq![t]);
        assert(text::split(whole, '/') == seq![s] + text::split(t, '/'));
        assert(text::split(whole, '/') =~= seq![s, t]);
        assert(text::split(s, '/').push(t) =~= seq![s, t]);
    }
}

/// On Windows a backslash separates as a slash does, and a drive is no part of a name: whatever stands before it,
/// the last component is the file name.
pub proof fn law_windows_last_component_is_the_file_name(dir: Seq<char>, separator: char, name: Seq<char>)
    requires
        separator == '/' || separator == '\\',
        dir.len() > 0,
        dir[0] != '/' && dir[0] != '\\',
        name.len() > 0,
        name != seq!['.'],
        name != seq!['.', '.'],
        forall|j: int| 0 <= j < name.len() ==> (#[trigger] name[j]) != '/' && name[j] != '\\',
    ensures
        file_name(dir + seq![separator] + name, Platform::Windows) == Some(name),
{
    let path = dir + seq![separator] + name;
    let even = slashed(dir, Platform::Windows);
    assert(slashed(path, Platform::Windows) =~= even + seq!['/'] + name);
    lemma_split_behind(even, name);
    let front = text::split(even, '/');
    let all = pieces(path, Platform::Windows);
    assert(all == front.push(name));
    text::lemma_split_nonempty(even, '/');
    lemma_first_piece(even);
    assert(even[0] == dir[0]);
    assert(front[0].len() > 0);
    assert(all[0] == front[0]);
    assert(!has_share(all));
    let behind = rest(path, Platform::Windows);
    assert(behind.last() == name) by {
        assert(behind.len() == all.len());
        assert(behind[behind.len() - 1] == all[all.len() - 1]);
    }
    assert(components(behind) == components(behind.drop_last()).push(name));
}

/// A drive is no part of a name.
pub proof fn law_drive_is_no_part_of_a_name(letter: char, name: Seq<char>)
    requires
        is_letter(letter),
        name.len() > 0,
        name != seq!['.'],
        name != seq!['.', '.'],
        forall|j: int| 0 <= j < name.len() ==> (#[trigger] name[j]) != '/' && name[j] != '\\',
    ensures
        file_name(seq![letter, ':'] + name, Platform::Windows) == Some(name),
{
    let drive = seq![letter, ':'] + name;
    assert(slashed(drive, Platform::Windows) =~= drive);
    assert forall|j: int| 0 <= j < drive.len() implies (#[trigger] drive[j]) != '/' by {
        if j >= 2 {
            assert(drive[j] == name[j - 2]);
        }
    }
    text::lemma_position_is(drive, '/', drive.len() as int);
    let one = pieces(drive, Platform::Windows);
    assert(one =~= seq![drive]);
    assert(has_drive(one[0]));
    let tail = rest(drive, Platform::Windows);
    assert(drive.skip(2) =~= name);
    assert(tail =~= seq![name]);
    assert(tail.drop_last() =~= Seq::<Seq<char>>::empty());
    reveal_with_fuel(components, 2);
    assert(components(tail) =~= seq![name]);
}

proof fn lemma_first_piece(s: Seq<char>)
    requires
        s.len() > 0,
        s[0] != '/',
    ensures
        text::split(s, '/')[0].len() > 0,
{
    text::lemma_position(s, '/');
}

/// A path is written the same as itself, and as itself with a slash or a `.` behind it.
pub proof fn law_trailing_slashes_do_not_matter(path: Seq<char>)
    requires
        path.len() > 0,
        path.last() != '/',
    ensures
        same(path, path, Platform::Unix),
        same(path + seq!['/'], path, Platform::Unix),
        same(path + seq!['/', '.'], path, Platform::Unix),
{
    let none = Seq::<char>::empty();
    let dot = seq!['.'];
    let front = text::split(path, '/');
    lemma_unix_pieces(path);
    lemma_unix_pieces(path + seq!['/']);
    lemma_unix_pieces(path + seq!['/', '.']);
    lemma_split_behind(path, none);
    lemma_split_behind(path, dot);
    assert(path + seq!['/'] + none =~= path + seq!['/']);
    assert(path + seq!['/'] + dot =~= path + seq!['/', '.']);
    text::lemma_split_nonempty(path, '/');
    assert(front.push(none).drop_last() =~= front);
    assert(front.push(dot).drop_last() =~= front);
    assert(components(front.push(none)) == components(front));
    assert(components(front.push(dot)) == components(front));
    text::lemma_position(path, '/');
    if front[0].len() == 0 {
        assert(path[0] == '/') by {
            let p = text::position(path, '/') as int;
            if p >= path.len() {
                assert(front[0] == path);
            } else {
                assert(front[0] == path.take(p));
                assert(p == 0);
            }
        }
        assert(front.len() > 1) by {
            text::lemma_split_nonempty(path.skip(1), '/');
        }
    }
}

} // verus!
