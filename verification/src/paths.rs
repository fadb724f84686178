//! Paths of the machine the sessions run on, as text. Components are parted by `/`.
use crate::text::{chars_of, same_text, text_of};
use vstd::prelude::*;

verus! {

/// The pieces of a path between its slashes, empty ones included.
pub open spec fn pieces(path: Seq<char>) -> Seq<Seq<char>>
    decreases path.len(),
{
    if path.len() == 0 {
        seq![Seq::empty()]
    } else {
        let earlier = pieces(path.drop_last());
        if path.last() == '/' {
            earlier.push(Seq::empty())
        } else {
            earlier.update(earlier.len() - 1, earlier.last().push(path.last()))
        }
    }
}

/// The components among the pieces: not the empty ones, and not `.`, which names no other
/// place, except where the path begins with it.
pub open spec fn named(pieces: Seq<Seq<char>>) -> Seq<Seq<char>>
    decreases pieces.len(),
{
    if pieces.len() == 0 {
        Seq::empty()
    } else {
        let earlier = named(pieces.drop_last());
        let piece = pieces.last();
        if piece.len() > 0 && (piece != "."@ || pieces.len() == 1) {
            earlier.push(piece)
        } else {
            earlier
        }
    }
}

/// The components of a path. The root is a component of its own.
pub open spec fn components(path: Seq<char>) -> Seq<Seq<char>> {
    let root = if path.len() > 0 && path[0] == '/' {
        seq!["/"@]
    } else {
        Seq::empty()
    };
    root + named(pieces(path))
}

/// Whether a path is `base` or lies below it, component by component.
pub open spec fn is_within(path: Seq<char>, base: Seq<char>) -> bool {
    components(base).is_prefix_of(components(path))
}

pub open spec fn component_views(components: Seq<String>) -> Seq<Seq<char>> {
    components.map_values(|component: String| component@)
}

proof fn lemma_pieces_not_empty(path: Seq<char>)
    ensures
        pieces(path).len() > 0,
    decreases path.len(),
{
    if path.len() > 0 {
        lemma_pieces_not_empty(path.drop_last());
    }
}

/// What is known of the pieces once the piece that began at `start` is complete.
proof fn lemma_piece_grows(path: Seq<char>, start: int, end: int)
    requires
        0 <= start <= end <= path.len(),
        forall|k: int| start <= k < end ==> path[k] != '/',
        start > 0 ==> path[start - 1] == '/',
    ensures
        ({
            let before = if start == 0 {
                Seq::empty()
            } else {
                pieces(path.take(start - 1))
            };
            pieces(path.take(end)) == before.push(path.subrange(start, end))
        }),
    decreases end - start,
{
    if end == start {
        assert(path.subrange(start, end) =~= Seq::empty());
        if start == 0 {
            assert(path.take(0) =~= Seq::empty());
            assert(pieces(path.take(end)) =~= Seq::empty().push(path.subrange(start, end)));
        } else {
            assert(path.take(start).drop_last() =~= path.take(start - 1));
            assert(path.take(start).last() == '/');
        }
    } else {
        lemma_piece_grows(path, start, end - 1);
        let before = if start == 0 {
            Seq::empty()
        } else {
            pieces(path.take(start - 1))
        };
        assert(path.take(end).drop_last() =~= path.take(end - 1));
        assert(path.take(end).last() == path[end - 1]);
        let shorter = before.push(path.subrange(start, end - 1));
        assert(shorter.last() == path.subrange(start, end - 1));
        assert(path.subrange(start, end - 1).push(path[end - 1]) =~= path.subrange(start, end));
        assert(shorter.update(shorter.len() - 1, path.subrange(start, end)) =~= before.push(
            path.subrange(start, end),
        ));
    }
}

fn components_of(path: &str) -> (result: Vec<String>)
    ensures
        component_views(result@) == components(path@),
{
    let chars = chars_of(path);
    let mut result: Vec<String> = Vec::new();
    let ghost root: Seq<Seq<char>> = if path@.len() > 0 && path@[0] == '/' {
        seq!["/"@]
    } else {
        Seq::empty()
    };
    if chars.len() > 0 && chars[0] == '/' {
        result.push("/".to_owned());
    }
    assert(component_views(result@) =~= root);
    assert(root + named(Seq::empty()) =~= root);
    let mut start: usize = 0;
    let mut end: usize = 0;
    let mut first = true;
    let mut done = false;
    while !done
        invariant
            chars@ == path@,
            start <= end <= chars@.len(),
            forall|k: int| start <= k < end ==> chars@[k] != '/',
            start > 0 ==> chars@[start - 1] == '/',
            first == (start == 0),
            !done ==> component_views(result@) == root + named(
                if start == 0 {
                    Seq::empty()
                } else {
                    pieces(chars@.take(start - 1))
                },
            ),
            done ==> component_views(result@) == root + named(pieces(chars@)),
        decreases chars@.len() + 1 - end, (if done { 0int } else { 1int }),
    {
        if end < chars.len() && chars[end] != '/' {
            end = end + 1;
            continue;
        }
        proof {
            lemma_piece_grows(chars@, start as int, end as int);
        }
        let ghost before = if start == 0 {
            Seq::empty()
        } else {
            pieces(chars@.take(start - 1))
        };
        let piece = text_of(&chars, start, end);
        let ghost now = pieces(chars@.take(end as int));
        proof {
            assert(now.drop_last() =~= before);
            assert(now.last() == piece@);
            if start > 0 {
                lemma_pieces_not_empty(chars@.take(start - 1));
            }
        }
        let ghost old_result = result@;
        if !piece.as_str().is_empty() && (first || !same_text(piece.as_str(), ".")) {
            result.push(piece);
            assert(component_views(result@) =~= component_views(old_result).push(piece@));
            assert((root + named(before)).push(piece@) =~= root + named(before).push(piece@));
        }
        assert(component_views(result@) == root + named(now));
        if end == chars.len() {
            assert(chars@.take(end as int) =~= chars@);
            done = true;
        } else {
            end = end + 1;
            start = end;
            first = false;
        }
    }
    result
}

/// Whether a path is `base` or lies below it.
pub fn path_starts_with(path: &str, base: &str) -> (result: bool)
    ensures
        result == is_within(path@, base@),
{
    let path_components = components_of(path);
    let base_components = components_of(base);
    if base_components.len() > path_components.len() {
        return false;
    }
    let mut i: usize = 0;
    while i < base_components.len()
        invariant
            i <= base_components@.len() <= path_components@.len(),
            component_views(path_components@) == components(path@),
            component_views(base_components@) == components(base@),
            forall|k: int|
                0 <= k < i ==> #[trigger] components(base@)[k] == components(path@)[k],
        decreases base_components@.len() - i,
    {
        assert(components(base@)[i as int] == base_components@[i as int]@);
        assert(components(path@)[i as int] == path_components@[i as int]@);
        if !same_text(base_components[i].as_str(), path_components[i].as_str()) {
            assert(!is_within(path@, base@)) by {
                if is_within(path@, base@) {
                    assert(components(path@).subrange(0, components(base@).len() as int)[i as int]
                        == components(base@)[i as int]);
                }
            }
            return false;
        }
        i = i + 1;
    }
    assert(components(base@) =~= components(path@).subrange(0, components(base@).len() as int));
    true
}

/// A path is within itself.
pub proof fn lemma_path_is_within_itself(path: Seq<char>)
    ensures
        is_within(path, path),
{
    assert(components(path).subrange(0, components(path).len() as int) =~= components(path));
}

} // verus!
