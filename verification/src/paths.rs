//! Paths as texts, on the systems where `/` separates their components.

use vstd::prelude::*;
use crate::text;

verus! {

/// A path with one more component.
pub open spec fn joined_path(base: Seq<char>, part: Seq<char>) -> Seq<char> {
    if base.len() == 0 || base.last() == '/' {
        base + part
    } else {
        base.push('/') + part
    }
}

pub fn join_path(base: &str, part: &str) -> (r: String)
    ensures
        r@ == joined_path(base@, part@),
{
    let v = text::chars_of(base);
    let mut r = text::owned(base);
    if v.len() > 0 && v[v.len() - 1] != '/' {
        r.push('/');
    }
    r.append(part);
    r
}

/// The components of a path among its pieces: those that hold anything, without
/// `.` unless it comes first.
pub open spec fn filled_pieces(pieces: Seq<Seq<char>>) -> Seq<Seq<char>>
    decreases pieces.len(),
{
    if pieces.len() == 0 {
        Seq::empty()
    } else {
        let before = filled_pieces(pieces.drop_last());
        if pieces.last().len() > 0 && (pieces.last() != "."@ || pieces.len() == 1) {
            before.push(pieces.last())
        } else {
            before
        }
    }
}

/// The components of a path, below its root if it has one.
pub open spec fn components(path: Seq<char>) -> Seq<Seq<char>> {
    filled_pieces(text::split(path, '/'))
}

pub open spec fn is_absolute(path: Seq<char>) -> bool {
    text::starts_with(path, "/"@)
}

/// Whether two paths are the same, component by component.
pub open spec fn same_path(a: Seq<char>, b: Seq<char>) -> bool {
    is_absolute(a) == is_absolute(b) && components(a) == components(b)
}

pub fn components_of(path: &str) -> (r: Vec<String>)
    ensures
        text::texts(r@) == components(path@),
{
    let pieces = text::split_at_each(path, '/');
    let mut r: Vec<String> = Vec::new();
    let mut i: usize = 0;
    assert(text::texts(pieces@).take(0) =~= Seq::empty());
    assert(text::texts(r@) =~= Seq::empty());
    while i < pieces.len()
        invariant
            i <= pieces@.len(),
            text::texts(r@) == filled_pieces(text::texts(pieces@).take(i as int)),
        decreases pieces@.len() - i,
    {
        proof {
            let next = text::texts(pieces@).take(i + 1);
            assert(next.drop_last() =~= text::texts(pieces@).take(i as int));
            assert(next.last() == pieces@[i as int]@);
        }
        let piece = pieces[i].as_str();
        if text::chars_of(piece).len() > 0 && (!text::same(piece, ".") || i == 0) {
            text::push_text(&mut r, piece);
        }
        i = i + 1;
    }
    assert(text::texts(pieces@).take(i as int) =~= text::texts(pieces@));
    r
}

pub fn is_same_path(a: &str, b: &str) -> (r: bool)
    ensures
        r == same_path(a@, b@),
{
    if text::has_prefix(a, "/") != text::has_prefix(b, "/") {
        return false;
    }
    let left = components_of(a);
    let right = components_of(b);
    if left.len() != right.len() {
        assert(text::texts(left@).len() != text::texts(right@).len());
        return false;
    }
    let mut i: usize = 0;
    while i < left.len()
        invariant
            text::texts(left@) == components(a@),
            text::texts(right@) == components(b@),
            left@.len() == right@.len(),
            i <= left@.len(),
            forall|k: int| 0 <= k < i ==> (#[trigger] left@[k])@ == right@[k]@,
        decreases left@.len() - i,
    {
        if !text::same(left[i].as_str(), right[i].as_str()) {
            assert(text::texts(left@)[i as int] != text::texts(right@)[i as int]);
            return false;
        }
        i = i + 1;
    }
    assert(text::texts(left@) =~= text::texts(right@));
    true
}

/// A path without the separators, and the components `.`, at its end. What is
/// the whole path stays.
pub open spec fn without_end(path: Seq<char>) -> Seq<char>
    decreases path.len(),
{
    if path.len() > 1 && (path.last() == '/' || (path.last() == '.' && path[path.len() - 2]
        == '/')) {
        without_end(path.drop_last())
    } else {
        path
    }
}

/// What stands before the last component of a path that ends in one.
pub open spec fn folder(path: Seq<char>) -> Seq<char> {
    without_end(path.take(text::last_char(path, '/', path.len() as int) + 1))
}

/// What follows the last separator of a path that ends in no separator.
pub open spec fn last_name(path: Seq<char>) -> Seq<char> {
    path.skip(text::last_char(path, '/', path.len() as int) + 1)
}

/// Whether a component names a file, rather than a place on the way.
pub open spec fn names_file_or_directory(name: Seq<char>) -> bool {
    name.len() > 0 && name != "."@ && name != ".."@
}

/// A path with more behind its last component; a path without a name gets that
/// as one more component.
pub open spec fn suffixed(path: Seq<char>, suffix: Seq<char>) -> Seq<char> {
    let bare = without_end(path);
    if names_file_or_directory(last_name(bare)) {
        joined_path(folder(bare), last_name(bare) + suffix)
    } else {
        joined_path(path, suffix)
    }
}

fn end_removed(path: &str) -> (r: String)
    ensures
        r@ == without_end(path@),
{
    let v = text::chars_of(path);
    let mut n: usize = v.len();
    assert(path@.take(n as int) =~= path@);
    while n > 1 && (v[n - 1] == '/' || (v[n - 1] == '.' && v[n - 2] == '/'))
        invariant
            v@ == path@,
            n <= v@.len(),
            without_end(path@) == without_end(path@.take(n as int)),
        decreases n,
    {
        assert(path@.take(n as int).drop_last() =~= path@.take(n - 1));
        n = n - 1;
    }
    let r = text::string_of(&v, 0, n);
    assert(r@ =~= path@.take(n as int));
    r
}

pub fn with_suffix(path: &str, suffix: &str) -> (r: String)
    ensures
        r@ == suffixed(path@, suffix@),
{
    let bare = end_removed(path);
    let v = text::chars_of(bare.as_str());
    let total: usize = v.len();
    let at: usize = match text::last_index_of(bare.as_str(), '/') {
        Some(i) => i + 1,
        None => 0,
    };
    let name = text::string_of(&v, at, total);
    let before = text::string_of(&v, 0, at);
    assert(name@ =~= last_name(bare@));
    assert(before@ =~= bare@.take(at as int));
    if at < total && !text::same(name.as_str(), ".") && !text::same(name.as_str(), "..") {
        let above = end_removed(before.as_str());
        join_path(above.as_str(), text::join2(name.as_str(), suffix).as_str())
    } else {
        join_path(path, suffix)
    }
}

} // verus!
