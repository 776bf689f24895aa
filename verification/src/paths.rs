//! File system paths as strings.

use vstd::prelude::*;

use crate::text;

verus! {

/// Whether a path starts at the root.
pub open spec fn is_absolute(path: Seq<char>) -> bool {
    path.len() > 0 && path[0] == '/'
}

/// A path within a directory. An absolute path stands for itself.
pub open spec fn joined(dir: Seq<char>, path: Seq<char>) -> Seq<char> {
    if is_absolute(path) {
        path
    } else if dir.len() == 0 || dir.last() == '/' {
        dir + path
    } else {
        dir.push('/') + path
    }
}

/// Whether a piece between slashes names anything: an empty one and a dot do
/// not.
pub open spec fn is_name(piece: Seq<char>) -> bool {
    piece.len() > 0 && piece != "."@
}

/// The names in a path.
pub open spec fn names(path: Seq<char>) -> Seq<Seq<char>> {
    text::pieces(path, '/').filter(|piece: Seq<char>| is_name(piece))
}

/// The components of a path: the root where it is absolute, and its names.
/// Repeated and trailing slashes make none, nor does a dot, except at the
/// start of a relative path.
pub open spec fn components(path: Seq<char>) -> Seq<Seq<char>> {
    if is_absolute(path) {
        seq!["/"@] + names(path)
    } else if text::pieces(path, '/')[0] == "."@ {
        seq!["."@] + names(path)
    } else {
        names(path)
    }
}

/// Whether two paths are the same: they have the same components.
pub open spec fn same_path(a: Seq<char>, b: Seq<char>) -> bool {
    components(a) == components(b)
}

/// Whether a path starts at the root.
pub fn absolute(path: &str) -> (r: bool)
    ensures
        r == is_absolute(path@),
{
    let chars = text::chars_of(path);
    chars.len() > 0 && chars[0] == '/'
}

/// A path within a directory. An absolute path stands for itself.
pub fn join(dir: &str, path: &str) -> (r: String)
    ensures
        r@ == joined(dir@, path@),
{
    if absolute(path) {
        return path.to_owned();
    }
    let chars = text::chars_of(dir);
    let mut out = dir.to_owned();
    if chars.len() > 0 && chars[chars.len() - 1] != '/' {
        out.push('/');
    }
    out.push_str(path);
    out
}

fn components_of(path: &str) -> (r: Vec<String>)
    ensures
        text::views(r@) == components(path@),
{
    let pieces = text::split(path, '/');
    let ghost all = text::pieces(path@, '/');
    let ghost named = |piece: Seq<char>| is_name(piece);
    let mut out: Vec<String> = Vec::new();
    let ghost mut lead = Seq::<Seq<char>>::empty();
    assert(all.len() > 0);
    assert(all[0] == pieces@[0]@);
    if absolute(path) {
        out.push("/".to_owned());
        proof {
            lead = seq!["/"@];
        }
    } else if text::same(pieces[0].as_str(), ".") {
        out.push(".".to_owned());
        proof {
            lead = seq!["."@];
        }
    }
    let mut i: usize = 0;
    proof {
        reveal_with_fuel(Seq::filter, 1);
        assert(all.take(0) =~= Seq::empty());
        assert(text::views(out@) =~= lead + all.take(0).filter(named));
    }
    while i < pieces.len()
        invariant
            i <= pieces@.len(),
            all == text::views(pieces@),
            named == (|piece: Seq<char>| is_name(piece)),
            text::views(out@) == lead + all.take(i as int).filter(named),
        decreases pieces@.len() - i,
    {
        let ghost before = text::views(out@);
        let ghost piece = pieces@[i as int]@;
        proof {
            assert(all[i as int] == piece);
            assert(all.take(i + 1) =~= all.take(i as int).push(piece));
            all.take(i as int).lemma_filter_push(piece, named);
        }
        if !text::same(pieces[i].as_str(), "") && !text::same(pieces[i].as_str(), ".") {
            proof {
                reveal_strlit("");
                assert(piece.len() > 0) by {
                    if piece.len() == 0 {
                        assert(piece =~= ""@);
                    }
                }
            }
            out.push(pieces[i].clone());
            assert(text::views(out@) =~= before.push(piece));
            assert(before.push(piece) =~= lead + all.take(i as int).filter(named).push(piece));
        } else {
            proof {
                reveal_strlit("");
            }
        }
        i += 1;
    }
    assert(all.take(i as int) =~= all);
    assert(lead.len() == 0 ==> lead + all.filter(named) =~= all.filter(named));
    out
}

/// Whether two paths are the same: they have the same components.
pub fn same(a: &str, b: &str) -> (r: bool)
    ensures
        r == same_path(a@, b@),
{
    let left = components_of(a);
    let right = components_of(b);
    let ghost x = text::views(left@);
    let ghost y = text::views(right@);
    assert(x.len() == left@.len() && y.len() == right@.len());
    if left.len() != right.len() {
        return false;
    }
    let mut i: usize = 0;
    while i < left.len()
        invariant
            i <= left@.len(),
            left@.len() == right@.len(),
            x == text::views(left@),
            y == text::views(right@),
            x == components(a@),
            y == components(b@),
            forall|j: int| 0 <= j < i ==> x[j] == y[j],
        decreases left@.len() - i,
    {
        assert(x[i as int] == left@[i as int]@ && y[i as int] == right@[i as int]@);
        if !text::same(left[i].as_str(), right[i].as_str()) {
            return false;
        }
        i += 1;
    }
    assert(x =~= y);
    true
}

proof fn lemma_pieces_of_joined(a: Seq<char>, b: Seq<char>, c: char)
    ensures
        text::pieces(a.push(c) + b, c) == text::pieces(a, c) + text::pieces(b, c),
    decreases a.len(),
{
    let whole = a.push(c) + b;
    text::lemma_find(a, c);
    text::lemma_find(whole, c);
    let at = text::find(a, c);
    let first = text::find(whole, c);
    if at < a.len() {
        assert(whole[at] == c);
        assert(first < a.len() ==> a[first] == whole[first]);
        assert(first == at);
        assert(whole.take(at) =~= a.take(at));
        assert(whole.skip(at + 1) =~= a.skip(at + 1).push(c) + b);
        lemma_pieces_of_joined(a.skip(at + 1), b, c);
        assert(text::pieces(whole, c) =~= text::pieces(a, c) + text::pieces(b, c));
    } else {
        assert(whole[a.len() as int] == c);
        assert(first < a.len() ==> a[first] == whole[first]);
        assert(first == a.len());
        assert(whole.take(first) =~= a);
        assert(whole.skip(first + 1) =~= b);
        assert(text::pieces(whole, c) =~= text::pieces(a, c) + text::pieces(b, c));
    }
}

proof fn lemma_no_names()
    ensures
        names(Seq::empty()) == Seq::<Seq<char>>::empty(),
{
    let none = Seq::<char>::empty();
    text::lemma_find(none, '/');
    reveal_with_fuel(Seq::filter, 2);
    assert(text::pieces(none, '/') =~= seq![none]);
    assert(seq![none].drop_last() =~= Seq::empty());
}

proof fn lemma_components_of_joined(dir: Seq<char>, path: Seq<char>)
    requires
        dir.len() > 0,
    ensures
        components(dir.push('/') + path) == components(dir) + names(path),
{
    let whole = dir.push('/') + path;
    let own = text::pieces(dir, '/');
    lemma_pieces_of_joined(dir, path, '/');
    Seq::filter_distributes_over_add(own, text::pieces(path, '/'), |piece: Seq<char>| is_name(piece));
    assert(names(whole) == names(dir) + names(path));
    assert(whole[0] == dir[0]);
    assert(text::pieces(whole, '/')[0] == own[0]);
    assert(components(whole) =~= components(dir) + names(path));
}

/// A slash at the end of a path, or a second one behind another, makes no
/// difference.
pub proof fn law_extra_slashes_make_no_difference(dir: Seq<char>, path: Seq<char>)
    requires
        dir.len() > 0,
    ensures
        same_path(dir.push('/'), dir),
        same_path(dir.push('/').push('/') + path, dir.push('/') + path),
{
    lemma_no_names();
    lemma_components_of_joined(dir, Seq::empty());
    assert(dir.push('/') + Seq::empty() =~= dir.push('/'));
    assert(components(dir) + Seq::<Seq<char>>::empty() =~= components(dir));
    lemma_components_of_joined(dir, path);
    lemma_components_of_joined(dir.push('/'), path);
}

/// A path is absolute where it begins with a slash. Within a directory an
/// absolute path stands for itself; another follows the directory with one
/// slash between them.
pub proof fn law_how_paths_are_joined(dir: Seq<char>, path: Seq<char>)
    ensures
        is_absolute(seq!['/'] + path),
        !is_absolute(Seq::empty()),
        path.len() > 0 && path[0] != '/' ==> !is_absolute(path),
        joined(dir, seq!['/'] + path) == seq!['/'] + path,
        path.len() == 0 || path[0] != '/' ==> {
            &&& dir.len() > 0 && dir.last() != '/' ==> joined(dir, path) == dir + seq!['/'] + path
            &&& dir.len() > 0 && dir.last() == '/' ==> joined(dir, path) == dir + path
            &&& dir.len() == 0 ==> joined(dir, path) == path
        },
{
    assert(dir.push('/') + path =~= dir + seq!['/'] + path);
    if dir.len() == 0 {
        assert(dir + path =~= path);
    }
}

/// The components of a path are what stands between its slashes, without empty
/// pieces and single dots; a root, or a dot at the beginning, is one too. Two
/// paths are the same where their components are.
pub proof fn law_what_components_are(path: Seq<char>, other: Seq<char>, piece: Seq<char>)
    ensures
        same_path(path, other) <==> components(path) == components(other),
        names(path).contains(piece) <==> text::pieces(path, '/').contains(piece) && piece.len() > 0 && piece != "."@,
        path.len() > 0 && path[0] == '/' ==> components(path) == seq!["/"@] + names(path),
        (path.len() == 0 || path[0] != '/') && text::pieces(path, '/')[0] == "."@ ==> components(path) == seq!["."@] + names(path),
        (path.len() == 0 || path[0] != '/') && text::pieces(path, '/')[0] != "."@ ==> components(path) == names(path),
        !piece.contains('/') ==> text::pieces(piece + seq!['/'] + path, '/') == seq![piece] + text::pieces(path, '/'),
        !piece.contains('/') && piece.len() > 0 && piece != "."@ ==> names(piece + seq!['/'] + path) == seq![piece] + names(path),
        !piece.contains('/') && (piece.len() == 0 || piece == "."@) ==> names(piece + seq!['/'] + path) == names(path),
{
    let keep = |p: Seq<char>| is_name(p);
    let all = text::pieces(path, '/');
    if names(path).contains(piece) {
        all.lemma_filter_contains_rev(keep, piece);
    }
    if all.contains(piece) && piece.len() > 0 && piece != "."@ {
        broadcast use vstd::seq_lib::group_filter_ensures;

        let i = choose|i: int| 0 <= i < all.len() && all[i] == piece;
        assert(keep(all[i]));
        assert(names(path).contains(all[i]));
    }
    if !piece.contains('/') {
        let long = piece + seq!['/'] + path;
        let n = piece.len() as int;
        assert(long[n] == '/');
        assert forall|i: int| 0 <= i < n implies #[trigger] long[i] != '/' by {
            assert(piece.contains(piece[i]));
            assert(long[i] == piece[i]);
        }
        text::lemma_find_is(long, '/', n);
        assert(long.take(n) =~= piece);
        assert(long.skip(n + 1) =~= path);
        Seq::filter_distributes_over_add(seq![piece], all, keep);
        let single = seq![piece];
        let none = Seq::<Seq<char>>::empty();
        assert(none.push(piece) =~= single);
        none.lemma_filter_push(piece, keep);
        assert(none.filter(keep) =~= none) by {
            reveal(Seq::filter);
        }
        assert(none + names(path) =~= names(path));
    }
}

} // verus!
