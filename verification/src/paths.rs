//! File paths as text: their components, their equality, their last name.

use crate::text::{chars_of, is_text, owned, same_chars, split, split_chars, string_of};
use vstd::prelude::*;

verus! {

/// Whether the piece of a path at position `i` is one of its components: empty
/// pieces are none, and `.` is one only at the start.
pub open spec fn is_component(piece: Seq<char>, i: int) -> bool {
    piece.len() > 0 && (piece != "."@ || i == 0)
}

/// The components among the first `n` pieces of a path.
pub open spec fn components_in(pieces: Seq<Seq<char>>, n: int) -> Seq<Seq<char>>
    decreases n,
{
    if n <= 0 {
        Seq::empty()
    } else {
        let before = components_in(pieces, n - 1);
        if is_component(pieces[n - 1], n - 1) {
            before.push(pieces[n - 1])
        } else {
            before
        }
    }
}

/// The components of a path.
pub open spec fn components(path: Seq<char>) -> Seq<Seq<char>> {
    components_in(split(path, '/'), split(path, '/').len() as int)
}

pub open spec fn is_absolute(path: Seq<char>) -> bool {
    path.len() > 0 && path[0] == '/'
}

/// Whether two paths are the same: repeated separators, a separator at the end and
/// `.` behind the start do not count.
pub open spec fn same_path(a: Seq<char>, b: Seq<char>) -> bool {
    is_absolute(a) == is_absolute(b) && components(a) == components(b)
}

/// The name at the end of a path, or the path itself where it ends with none.
pub open spec fn display_name_of(path: Seq<char>) -> Seq<char> {
    let parts = components(path);
    if parts.len() > 0 && parts.last() != ".."@ && parts.last() != "."@ {
        parts.last()
    } else {
        path
    }
}

/// The texts that some pieces hold.
pub open spec fn piece_texts(pieces: Seq<&[char]>) -> Seq<Seq<char>> {
    Seq::new(pieces.len(), |i: int| pieces[i]@)
}

fn find_components<'a>(path: &'a [char]) -> (parts: Vec<&'a [char]>)
    ensures
        piece_texts(parts@) == components(path@),
{
    let pieces = split_chars(path, '/');
    let ghost all = split(path@, '/');
    let mut parts: Vec<&'a [char]> = Vec::new();
    let mut i: usize = 0;
    proof {
        assert(piece_texts(parts@) =~= components_in(all, 0));
    }
    while i < pieces.len()
        invariant
            i <= pieces@.len() == all.len(),
            forall|k: int| 0 <= k < all.len() ==> (#[trigger] pieces@[k])@ == all[k],
            piece_texts(parts@) == components_in(all, i as int),
        decreases pieces@.len() - i,
    {
        let piece = pieces[i];
        if piece.len() > 0 && (i == 0 || !is_text(piece, ".")) {
            let ghost before = piece_texts(parts@);
            parts.push(piece);
            proof {
                assert(piece_texts(parts@) =~= before.push(piece@));
            }
        }
        i = i + 1;
    }
    parts
}

fn starts_at_root(path: &[char]) -> (v: bool)
    ensures
        v == is_absolute(path@),
{
    path.len() > 0 && path[0] == '/'
}

/// Whether two paths are the same.
pub fn are_same_path(a: &str, b: &str) -> (v: bool)
    ensures
        v == same_path(a@, b@),
{
    let x = chars_of(a);
    let y = chars_of(b);
    if starts_at_root(x.as_slice()) != starts_at_root(y.as_slice()) {
        return false;
    }
    let p = find_components(x.as_slice());
    let q = find_components(y.as_slice());
    let ghost pt = piece_texts(p@);
    let ghost qt = piece_texts(q@);
    if p.len() != q.len() {
        proof {
            assert(pt.len() != qt.len());
        }
        return false;
    }
    let mut i: usize = 0;
    while i < p.len()
        invariant
            i <= p@.len() == q@.len(),
            pt == piece_texts(p@),
            pt == components(a@),
            qt == piece_texts(q@),
            qt == components(b@),
            forall|k: int| 0 <= k < i ==> pt[k] == qt[k],
        decreases p@.len() - i,
    {
        if !same_chars(p[i], q[i]) {
            proof {
                assert(pt[i as int] != qt[i as int]);
            }
            return false;
        }
        i = i + 1;
    }
    proof {
        assert(pt =~= qt);
    }
    true
}

/// The name at the end of a path, or the path itself where it ends with none.
pub fn display_name(path: &str) -> (name: String)
    ensures
        name@ == display_name_of(path@),
{
    last_name(path, path)
}

/// The name at the end of a path, or another text where it ends with none.
pub(crate) fn last_name(path: &str, otherwise: &str) -> (name: String)
    ensures
        name@ == (if components(path@).len() > 0 && components(path@).last() != ".."@ && components(
            path@,
        ).last() != "."@ {
            components(path@).last()
        } else {
            otherwise@
        }),
{
    let chars = chars_of(path);
    let parts = find_components(chars.as_slice());
    let n: usize = parts.len();
    if n > 0 {
        let last = parts[n - 1];
        proof {
            assert(components(path@).last() == last@);
        }
        if !is_text(last, "..") && !is_text(last, ".") {
            return string_of(last);
        }
    }
    owned(otherwise)
}

/// A path is the same as itself, and sameness goes both ways and on.
pub proof fn same_path_is_an_equivalence(a: Seq<char>, b: Seq<char>, c: Seq<char>)
    ensures
        same_path(a, a),
        same_path(a, b) ==> same_path(b, a),
        same_path(a, b) && same_path(b, c) ==> same_path(a, c),
{
}

proof fn lemma_components(pieces: Seq<Seq<char>>, n: int)
    requires
        0 <= n <= pieces.len(),
        forall|i: int| 0 < i < pieces.len() ==> is_component(#[trigger] pieces[i], i),
        pieces.len() > 0,
        pieces[0].len() == 0,
    ensures
        components_in(pieces, n) == (if n == 0 {
            Seq::empty()
        } else {
            pieces.subrange(1, n)
        }),
    decreases n,
{
    if n > 0 {
        lemma_components(pieces, n - 1);
        if n == 1 {
            assert(components_in(pieces, n) =~= pieces.subrange(1, n));
        } else {
            assert(is_component(pieces[n - 1], n - 1));
            assert(components_in(pieces, n) =~= pieces.subrange(1, n));
        }
    }
}

/// The components of a path from the root are the names between its slashes, and its own
/// name is the last of them.
pub proof fn a_path_is_its_names(names: Seq<Seq<char>>)
    requires
        names.len() > 0,
        forall|i: int|
            0 <= i < names.len() ==> (#[trigger] names[i]).len() > 0 && names[i] != "."@ && names[i]
                != ".."@ && crate::text::laws::is_free_of(names[i], '/'),
    ensures
        ({
            let path = seq!['/'] + crate::text::laws::listed(names, '/');
            &&& is_absolute(path)
            &&& components(path) == names
            &&& display_name_of(path) == names.last()
        }),
{
    let empty = Seq::<char>::empty();
    let pieces = seq![empty] + names;
    let path = seq!['/'] + crate::text::laws::listed(names, '/');
    assert(pieces.drop_first() =~= names);
    assert(crate::text::laws::listed(pieces, '/') =~= path);
    assert forall|i: int| 0 <= i < pieces.len() implies crate::text::laws::is_free_of(
        #[trigger] pieces[i],
        '/',
    ) by {
        if i > 0 {
            assert(pieces[i] == names[i - 1]);
        }
    }
    crate::text::laws::cutting_undoes_listing(pieces, '/');
    assert forall|i: int| 0 < i < pieces.len() implies is_component(#[trigger] pieces[i], i) by {
        assert(pieces[i] == names[i - 1]);
    }
    lemma_components(pieces, pieces.len() as int);
    assert(pieces.subrange(1, pieces.len() as int) =~= names);
    assert(names[names.len() - 1] != "."@);
}

} // verus!
