//! The names that a path is made of.
//!
//! Names are separated by slashes. A repeated or trailing slash separates
//! nothing, and a single dot stands for nothing, unless the path begins with it.

use vstd::prelude::*;

use crate::memory::same_bytes;
use crate::string_edit::contents;

verus! {

/// Where the slash at or after `from` is, or the end of the path.
pub open spec fn next_slash(path: Seq<u8>, from: int) -> int
    decreases path.len() - from,
{
    if from >= path.len() || path[from] == 47 {
        from
    } else {
        next_slash(path, from + 1)
    }
}

/// Whether the part of a path that begins at `from` is a name.
pub open spec fn is_name(part: Seq<u8>, from: int) -> bool {
    part.len() > 0 && (from > 0 ==> part != seq![46u8])
}

proof fn lemma_next_slash(path: Seq<u8>, from: int)
    requires
        0 <= from <= path.len(),
    ensures
        from <= next_slash(path, from) <= path.len(),
    decreases path.len() - from,
{
    if from < path.len() && path[from] != 47 {
        lemma_next_slash(path, from + 1);
    }
}

/// The names of a path from one of its parts on.
pub open spec fn names_from(path: Seq<u8>, from: int) -> Seq<Seq<u8>>
    decreases path.len() + 1 - from,
    when 0 <= from
    via names_from_ends
{
    if from > path.len() {
        Seq::empty()
    } else {
        let end = next_slash(path, from);
        let part = path.subrange(from, end);
        let rest = names_from(path, end + 1);
        if is_name(part, from) {
            seq![part] + rest
        } else {
            rest
        }
    }
}

#[via_fn]
proof fn names_from_ends(path: Seq<u8>, from: int) {
    if from <= path.len() {
        lemma_next_slash(path, from);
    }
}

/// The names of a path.
pub open spec fn names(path: Seq<u8>) -> Seq<Seq<u8>> {
    names_from(path, 0)
}

/// Whether a path begins at the root.
pub open spec fn is_rooted(path: Seq<u8>) -> bool {
    path.len() > 0 && path[0] == 47
}

/// Whether `path` names something directly below `directory`.
pub open spec fn is_child(path: Seq<u8>, directory: Seq<u8>) -> bool {
    &&& names(path).len() > 0
    &&& names(path).drop_last() == names(directory)
    &&& is_rooted(path) == is_rooted(directory)
}

/// Takes a path apart.
fn path_names(path: &[u8]) -> (result: Vec<Vec<u8>>)
    ensures
        contents(result@) == names(path@),
{
    let mut result: Vec<Vec<u8>> = Vec::new();
    let mut part: Vec<u8> = Vec::new();
    let mut from: usize = 0;
    let mut at: usize = 0;
    let size: usize = path.len();
    proof {
        lemma_next_slash(path@, 0);
        assert(contents(result@) + names_from(path@, 0) =~= names(path@));
    }
    while at < size
        invariant
            size == path@.len(),
            from <= at <= size,
            part@ == path@.subrange(from as int, at as int),
            next_slash(path@, from as int) == next_slash(path@, at as int),
            contents(result@) + names_from(path@, from as int) == names(path@),
        decreases size - at,
    {
        if path[at] == 47 {
            let ghost found = contents(result@);
            let ghost piece = part@;
            proof {
                assert(next_slash(path@, from as int) == at);
            }
            if part.len() > 0 && !(from > 0 && part.len() == 1 && part[0] == 46) {
                proof {
                    assert(is_name(piece, from as int));
                }
                result.push(part);
                proof {
                    assert(contents(result@) =~= found.push(piece));
                    assert(found + (seq![piece] + names_from(path@, at + 1)) =~= found.push(piece)
                        + names_from(path@, at + 1));
                }
            } else {
                proof {
                    if part@.len() == 1 {
                        assert(part@ =~= seq![46u8]);
                    }
                    assert(!is_name(piece, from as int));
                }
            }
            part = Vec::new();
            from = at + 1;
            assert(part@ =~= path@.subrange(from as int, from as int));
        } else {
            part.push(path[at]);
            assert(part@ =~= path@.subrange(from as int, at + 1));
        }
        at = at + 1;
    }
    let ghost found = contents(result@);
    let ghost piece = part@;
    proof {
        assert(names_from(path@, size + 1) =~= Seq::empty());
    }
    if part.len() > 0 && !(from > 0 && part.len() == 1 && part[0] == 46) {
        result.push(part);
        proof {
            assert(contents(result@) =~= found.push(piece));
            assert(found + (seq![piece] + names_from(path@, size + 1)) =~= found.push(piece));
        }
    } else {
        proof {
            if part@.len() == 1 {
                assert(part@ =~= seq![46u8]);
            }
            assert(found + names_from(path@, size + 1) =~= found);
        }
    }
    result
}

/// Whether `path` names something directly below `directory`.
pub fn is_direct_child(path: &[u8], directory: &[u8]) -> (result: bool)
    ensures
        result == is_child(path@, directory@),
{
    let inner: Vec<Vec<u8>> = path_names(path);
    let outer: Vec<Vec<u8>> = path_names(directory);
    let ghost (a, b) = (names(path@), names(directory@));
    let rooted: bool = path.len() > 0 && path[0] == 47;
    let directory_rooted: bool = directory.len() > 0 && directory[0] == 47;
    let depth: usize = outer.len();
    proof {
        assert(a.len() == inner@.len() && b.len() == outer@.len());
    }
    if inner.len() == 0 || inner.len() - 1 != depth || rooted != directory_rooted {
        return false;
    }
    let mut i: usize = 0;
    while i < depth
        invariant
            depth == outer@.len(),
            inner@.len() == depth + 1,
            i <= depth,
            a == contents(inner@),
            b == contents(outer@),
            a == names(path@),
            b == names(directory@),
            forall|k: int| 0 <= k < i ==> #[trigger] a[k] == b[k],
        decreases depth - i,
    {
        if !same_bytes(inner[i].as_slice(), outer[i].as_slice()) {
            proof {
                assert(a.drop_last()[i as int] == a[i as int]);
                assert(a[i as int] != b[i as int]);
            }
            return false;
        }
        i = i + 1;
    }
    assert(a.drop_last() =~= b);
    true
}

} // verus!
