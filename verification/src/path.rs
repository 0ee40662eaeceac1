//! The final component of a path.
//!
//! A path is split at its slashes. Pieces that are empty or a single dot name
//! nothing and are passed over from the end; the piece before them is the
//! final component, unless it is `..`, which names the directory above and so
//! no entry of its own. Where the slash separates, this is the file name that
//! the standard library reads off a path.

use vstd::prelude::*;
use crate::text::chars_of;

verus! {

/// The pieces of `path` between its slashes, empty ones included: `a//b/` has
/// the pieces `a`, the empty text, `b` and the empty text again.
pub open spec fn components(path: Seq<char>) -> Seq<Seq<char>>
    decreases path.len(),
{
    if path.len() == 0 {
        seq![Seq::<char>::empty()]
    } else if path.last() == '/' {
        components(path.drop_last()).push(Seq::<char>::empty())
    } else {
        let before = components(path.drop_last());
        before.drop_last().push(before.last().push(path.last()))
    }
}

/// Whether a piece of a path names nothing: it is empty or a single dot.
pub open spec fn is_skipped(piece: Seq<char>) -> bool {
    piece.len() == 0 || piece =~= seq!['.']
}

/// Whether a piece of a path is `..`, the directory above.
pub open spec fn is_parent(piece: Seq<char>) -> bool {
    piece =~= seq!['.', '.']
}

/// The last of `parts` that names something, unless it is `..`.
pub open spec fn last_named(parts: Seq<Seq<char>>) -> Option<Seq<char>>
    decreases parts.len(),
{
    if parts.len() == 0 {
        None
    } else if is_skipped(parts.last()) {
        last_named(parts.drop_last())
    } else if is_parent(parts.last()) {
        None
    } else {
        Some(parts.last())
    }
}

/// The final component of `path`. A path that ends in `..`, or that holds
/// nothing but slashes and single dots, has none.
pub open spec fn final_component(path: Seq<char>) -> Option<Seq<char>> {
    last_named(components(path))
}

/// A path without a slash is one piece.
pub proof fn lemma_components_of_piece(piece: Seq<char>)
    requires
        forall|i: int| 0 <= i < piece.len() ==> piece[i] != '/',
    ensures
        components(piece) == seq![piece],
    decreases piece.len(),
{
    if piece.len() > 0 {
        lemma_components_of_piece(piece.drop_last());
        assert(seq![piece.drop_last()].drop_last().push(piece.drop_last().push(piece.last()))
            =~= seq![piece]) by {
            assert(piece.drop_last().push(piece.last()) =~= piece);
        }
    } else {
        assert(piece =~= Seq::<char>::empty());
    }
}

/// What follows the last slash of a path is its last piece, and what stands
/// before that slash gives the pieces before it.
pub proof fn lemma_components_after_slash(head: Seq<char>, piece: Seq<char>)
    requires
        forall|i: int| 0 <= i < piece.len() ==> piece[i] != '/',
    ensures
        components(head + seq!['/'] + piece) == components(head).push(piece),
    decreases piece.len(),
{
    let path = head + seq!['/'] + piece;
    if piece.len() == 0 {
        assert(path.drop_last() =~= head);
        assert(piece =~= Seq::<char>::empty());
    } else {
        let shorter = piece.drop_last();
        lemma_components_after_slash(head, shorter);
        assert(path.drop_last() =~= head + seq!['/'] + shorter);
        assert(shorter.push(piece.last()) =~= piece);
    }
}

/// No piece of a path holds a slash.
pub proof fn lemma_components_hold_no_slash(path: Seq<char>)
    ensures
        components(path).len() >= 1,
        forall|k: int, i: int|
            0 <= k < components(path).len() && 0 <= i < components(path)[k].len() ==> (
            #[trigger] components(path)[k][i]) != '/',
    decreases path.len(),
{
    if path.len() > 0 {
        lemma_components_hold_no_slash(path.drop_last());
    }
}

/// What [`last_named`] gives is one of the parts, and one that names something.
pub proof fn lemma_last_named_is_a_part(parts: Seq<Seq<char>>)
    ensures
        last_named(parts) matches Some(name) ==> {
            &&& exists|k: int| 0 <= k < parts.len() && #[trigger] parts[k] == name
            &&& !is_skipped(name)
            &&& !is_parent(name)
        },
    decreases parts.len(),
{
    if parts.len() > 0 {
        if is_skipped(parts.last()) {
            let rest = parts.drop_last();
            lemma_last_named_is_a_part(rest);
            if last_named(rest) is Some {
                let name = last_named(rest)->Some_0;
                let k = choose|k: int| 0 <= k < rest.len() && #[trigger] rest[k] == name;
                assert(parts[k] == name);
            }
        } else if !is_parent(parts.last()) {
            assert(parts[parts.len() - 1] == parts.last());
        }
    }
}

/// A final component is a name and nothing else: it is not empty, it is
/// neither `.` nor `..`, and it holds no slash. Appended to a directory it
/// names an entry of that directory.
pub proof fn lemma_final_component_is_a_name(path: Seq<char>)
    ensures
        final_component(path) matches Some(name) ==> {
            &&& name.len() > 0
            &&& !is_skipped(name)
            &&& !is_parent(name)
            &&& forall|i: int| 0 <= i < name.len() ==> name[i] != '/'
        },
{
    let parts = components(path);
    lemma_components_hold_no_slash(path);
    lemma_last_named_is_a_part(parts);
    if final_component(path) is Some {
        let name = final_component(path)->Some_0;
        let k = choose|k: int| 0 <= k < parts.len() && #[trigger] parts[k] == name;
        assert forall|i: int| 0 <= i < name.len() implies name[i] != '/' by {
            assert(components(path)[k][i] != '/');
        }
    }
}

/// A name without a slash that is neither empty nor made of one or two dots is
/// the final component of every path that ends in a slash and that name.
pub proof fn lemma_final_component_of_plain_name(dir: Seq<char>, name: Seq<char>)
    requires
        forall|i: int| 0 <= i < name.len() ==> name[i] != '/',
        !is_skipped(name),
        !is_parent(name),
    ensures
        final_component(name) == Some(name),
        final_component(dir + seq!['/'] + name) == Some(name),
{
    lemma_components_of_piece(name);
    lemma_components_after_slash(dir, name);
}

/// Finds the final component of `path`.
pub fn final_component_of(path: &str) -> (name: Option<String>)
    ensures
        match final_component(path@) {
            Some(text) => name matches Some(found) && found@ == text,
            None => name is None,
        },
{
    let chars = chars_of(path);
    let mut end: usize = chars.len();
    assert(path@.take(end as int) =~= path@);
    loop
        invariant
            chars@ == path@,
            end <= chars@.len(),
            final_component(path@) == final_component(path@.take(end as int)),
        decreases end,
    {
        let mut start: usize = end;
        while start > 0 && chars[start - 1] != '/'
            invariant
                start <= end <= chars@.len(),
                forall|k: int| start <= k < end ==> chars@[k] != '/',
            decreases start,
        {
            start -= 1;
        }
        let ghost piece = chars@.subrange(start as int, end as int);
        let len: usize = end - start;
        proof {
            let parts = components(path@.take(end as int));
            if start == 0 {
                lemma_components_of_piece(piece);
                assert(path@.take(end as int) =~= piece);
                assert(last_named(parts.drop_last()) is None);
            } else {
                let head = path@.take(start - 1);
                lemma_components_after_slash(head, piece);
                assert(path@.take(end as int) =~= head + seq!['/'] + piece);
                assert(parts.drop_last() =~= components(head));
            }
            assert(len == 1 && chars@[start as int] == '.' ==> piece =~= seq!['.']);
            assert(len == 2 && chars@[start as int] == '.' && chars@[start + 1] == '.' ==> piece
                =~= seq!['.', '.']);
        }
        if len == 0 || (len == 1 && chars[start] == '.') {
            if start == 0 {
                return None;
            }
            end = start - 1;
        } else if len == 2 && chars[start] == '.' && chars[start + 1] == '.' {
            return None;
        } else {
            let found = path.substring_char(start, end);
            return Some(found.to_owned());
        }
    }
}

} // verus!
