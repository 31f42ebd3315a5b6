//! File paths as text: `/` separates components, as on the systems this tool runs on.

use crate::text::{chars_of, equal_folded, push_char, slice_of, split_chars, string_of};
use vstd::prelude::*;

verus! {

/// Whether a piece between two separators names something: empty pieces and `.` do not.
pub open spec fn names_something(piece: Seq<char>) -> bool {
    piece.len() > 0 && piece != seq!['.']
}

/// The last piece that names something.
pub open spec fn last_name(pieces: Seq<Seq<char>>) -> Option<Seq<char>>
    decreases pieces.len(),
{
    if pieces.len() == 0 {
        None
    } else if names_something(pieces.last()) {
        Some(pieces.last())
    } else {
        last_name(pieces.drop_last())
    }
}

/// The final component of a path, unless it is `..` or there is none.
pub open spec fn file_name_of(path: Seq<char>) -> Option<Seq<char>> {
    match last_name(crate::text::split(path, '/')) {
        Some(name) => if name == seq!['.', '.'] {
            None
        } else {
            Some(name)
        },
        None => None,
    }
}

/// The position of the last `c`, or -1.
pub open spec fn rfind(s: Seq<char>, c: char) -> int
    decreases s.len(),
{
    if s.len() == 0 {
        -1
    } else if s.last() == c {
        s.len() - 1
    } else {
        rfind(s.drop_last(), c)
    }
}

pub proof fn lemma_rfind(s: Seq<char>, c: char)
    ensures
        -1 <= rfind(s, c) < s.len() || (s.len() == 0 && rfind(s, c) == -1),
        rfind(s, c) >= 0 ==> s[rfind(s, c)] == c,
        forall|i: int| rfind(s, c) < i < s.len() ==> s[i] != c,
    decreases s.len(),
{
    if s.len() > 0 && s.last() != c {
        lemma_rfind(s.drop_last(), c);
        assert forall|i: int| rfind(s, c) < i < s.len() implies s[i] != c by {
            if i < s.len() - 1 {
                assert(s.drop_last()[i] == s[i]);
            }
        }
    }
}

/// What follows the last `.` of the file name, where a name precedes it.
pub open spec fn extension_of(path: Seq<char>) -> Option<Seq<char>> {
    match file_name_of(path) {
        Some(name) => if rfind(name, '.') > 0 {
            Some(name.skip(rfind(name, '.') + 1))
        } else {
            None
        },
        None => None,
    }
}

pub open spec fn is_absolute(path: Seq<char>) -> bool {
    path.len() > 0 && path[0] == '/'
}

/// `path` where it is absolute, else `path` below `root`.
pub open spec fn join_path(root: Seq<char>, path: Seq<char>) -> Seq<char> {
    if is_absolute(path) || root.len() == 0 {
        path
    } else if root.last() == '/' {
        root + path
    } else {
        root + seq!['/'] + path
    }
}

fn named(piece: &Vec<char>) -> (r: bool)
    ensures
        r == names_something(piece@),
{
    if piece.len() == 1 && piece[0] == '.' {
        assert(piece@ =~= seq!['.']);
        false
    } else {
        proof {
            if piece@ == seq!['.'] {
                assert(piece@.len() == 1 && piece@[0] == '.');
            }
        }
        piece.len() > 0
    }
}

fn is_parent(piece: &Vec<char>) -> (r: bool)
    ensures
        r == (piece@ == seq!['.', '.']),
{
    let r = piece.len() == 2 && piece[0] == '.' && piece[1] == '.';
    proof {
        if r {
            assert(piece@ =~= seq!['.', '.']);
        } else if piece@ == seq!['.', '.'] {
            assert(piece@.len() == 2 && piece@[0] == '.' && piece@[1] == '.');
        }
    }
    r
}

fn file_name_chars(path: &str) -> (r: Option<Vec<char>>)
    ensures
        (match r {
            Some(name) => file_name_of(path@) == Some(name@),
            None => file_name_of(path@) is None,
        }),
{
    let chars = chars_of(path);
    let pieces = split_chars(&chars, '/');
    let ghost all = pieces@.map_values(|v: Vec<char>| v@);
    let mut i: usize = pieces.len();
    assert(all.take(i as int) =~= all);
    while i > 0
        invariant
            i <= pieces@.len(),
            all == pieces@.map_values(|v: Vec<char>| v@),
            all == crate::text::split(path@, '/'),
            last_name(all.take(i as int)) == last_name(all),
        decreases i,
    {
        proof {
            assert(all.take(i as int).last() == pieces@[i - 1]@);
            assert(all.take(i as int).drop_last() =~= all.take(i - 1));
        }
        if named(&pieces[i - 1]) {
            if is_parent(&pieces[i - 1]) {
                return None;
            }
            let name = slice_of(&pieces[i - 1], 0, pieces[i - 1].len());
            assert(name@ =~= pieces@[i - 1]@);
            return Some(name);
        }
        i = i - 1;
    }
    None
}

/// The final component of a path.
pub fn file_name(path: &str) -> (r: Option<String>)
    ensures
        (match r {
            Some(name) => file_name_of(path@) == Some(name@),
            None => file_name_of(path@) is None,
        }),
{
    match file_name_chars(path) {
        Some(name) => Some(string_of(&name)),
        None => None,
    }
}

/// The extension of a path's file name.
pub fn extension(path: &str) -> (r: Option<String>)
    ensures
        (match r {
            Some(ext) => extension_of(path@) == Some(ext@),
            None => extension_of(path@) is None,
        }),
{
    match file_name_chars(path) {
        None => None,
        Some(name) => {
            let n: usize = name.len();
            let mut i: usize = n;
            assert(name@.take(n as int) =~= name@);
            while i > 0 && name[i - 1] != '.'
                invariant
                    i <= n,
                    n == name@.len(),
                    rfind(name@.take(i as int), '.') == rfind(name@, '.'),
                decreases i,
            {
                assert(name@.take(i as int).drop_last() =~= name@.take(i - 1));
                i = i - 1;
            }
            proof {
                if i > 0 {
                    assert(name@.take(i as int).last() == '.');
                }
            }
            if i <= 1 {
                None
            } else {
                let ext = slice_of(&name, i, n);
                assert(ext@ =~= name@.skip(rfind(name@, '.') + 1));
                Some(string_of(&ext))
            }
        },
    }
}

/// Whether the path's extension is `wanted`, up to case.
pub open spec fn extension_is(path: Seq<char>, wanted: Seq<char>) -> bool {
    match extension_of(path) {
        Some(ext) => crate::text::same_folded(ext, wanted),
        None => false,
    }
}

pub fn has_extension(path: &str, wanted: &str) -> (r: bool)
    ensures
        r == extension_is(path@, wanted@),
{
    match extension(path) {
        Some(ext) => equal_folded(ext.as_str(), wanted),
        None => false,
    }
}

/// `path` where it is absolute, else `path` below `root`.
pub fn joined_path(root: &str, path: &str) -> (r: String)
    ensures
        r@ == join_path(root@, path@),
{
    let head = chars_of(root);
    let tail = chars_of(path);
    if (tail.len() > 0 && tail[0] == '/') || head.len() == 0 {
        return path.to_owned();
    }
    let mut out = root.to_owned();
    if head[head.len() - 1] != '/' {
        push_char(&mut out, '/');
    }
    out.append(path);
    assert(out@ =~= join_path(root@, path@));
    out
}

/// The pieces of a path that name something; a `.` counts where a relative path begins with
/// it.
pub open spec fn components(pieces: Seq<Seq<char>>) -> Seq<Seq<char>>
    decreases pieces.len(),
{
    if pieces.len() == 0 {
        seq![]
    } else if names_something(pieces.last()) || (pieces.len() == 1 && pieces.last() == seq!['.']) {
        components(pieces.drop_last()).push(pieces.last())
    } else {
        components(pieces.drop_last())
    }
}

/// Whether two paths are the same, however their separators are written.
pub open spec fn same_paths(a: Seq<char>, b: Seq<char>) -> bool {
    &&& is_absolute(a) == is_absolute(b)
    &&& components(crate::text::split(a, '/')) == components(crate::text::split(b, '/'))
}

fn components_in(path: &str) -> (r: Vec<Vec<char>>)
    ensures
        crate::text::texts(r@) == components(crate::text::split(path@, '/')),
{
    let pieces = split_chars(&chars_of(path), '/');
    let ghost all = crate::text::texts(pieces@);
    let mut out: Vec<Vec<char>> = Vec::new();
    let mut i: usize = 0;
    assert(all.take(0) =~= seq![]);
    assert(crate::text::texts(out@) =~= seq![]);
    while i < pieces.len()
        invariant
            i <= pieces@.len(),
            all == crate::text::texts(pieces@),
            crate::text::texts(out@) == components(all.take(i as int)),
        decreases pieces@.len() - i,
    {
        let piece = &pieces[i];
        proof {
            assert(all.take(i + 1).drop_last() =~= all.take(i as int));
            assert(all.take(i + 1).last() == piece@);
            if piece@ == seq!['.'] {
                assert(piece@.len() == 1 && piece@[0] == '.');
            } else if piece@.len() == 1 && piece@[0] == '.' {
                assert(piece@ =~= seq!['.']);
            }
        }
        if named(piece) || (i == 0 && piece.len() == 1 && piece[0] == '.') {
            let copy = slice_of(piece, 0, piece.len());
            assert(copy@ =~= piece@);
            proof {
                crate::text::lemma_texts_push(out@, copy);
            }
            out.push(copy);
        }
        i = i + 1;
    }
    assert(all.take(i as int) =~= all);
    out
}

/// Whether two paths are the same.
pub fn equal_paths(a: &str, b: &str) -> (r: bool)
    ensures
        r == same_paths(a@, b@),
{
    let first = chars_of(a);
    let second = chars_of(b);
    let rooted = first.len() > 0 && first[0] == '/';
    let other_rooted = second.len() > 0 && second[0] == '/';
    if rooted != other_rooted {
        return false;
    }
    let left = components_in(a);
    let right = components_in(b);
    let ghost l = crate::text::texts(left@);
    let ghost r = crate::text::texts(right@);
    if left.len() != right.len() {
        assert(l.len() != r.len());
        return false;
    }
    let mut i: usize = 0;
    while i < left.len()
        invariant
            i <= left@.len(),
            left@.len() == right@.len(),
            l == crate::text::texts(left@),
            r == crate::text::texts(right@),
            l == components(crate::text::split(a@, '/')),
            r == components(crate::text::split(b@, '/')),
            forall|k: int| 0 <= k < i ==> l[k] == r[k],
        decreases left@.len() - i,
    {
        assert(l[i as int] == left@[i as int]@ && r[i as int] == right@[i as int]@);
        let x = string_of(&left[i]);
        let y = string_of(&right[i]);
        if !crate::text::same(x.as_str(), y.as_str()) {
            return false;
        }
        i = i + 1;
    }
    assert(l =~= r);
    true
}

} // verus!
