//! Field masks: lists of dotted paths that say which fields to decode.

use vstd::prelude::*;
use vstd::slice::slice_subrange;
use crate::model::{residual, selects, Mask};

verus! {

/// `PartialEq::eq` of `str`.
///
/// Trusted: two string slices are equal exactly where they hold the same
/// characters.
pub assume_specification[ <str as PartialEq>::eq ](a: &str, b: &str) -> (equal: bool)
    ensures
        equal == (a@ == b@),
;

/// The names of a path.
pub open spec fn path_view(path: &[&str]) -> Seq<Seq<char>> {
    Seq::new(path@.len(), |j: int| path@[j]@)
}

/// The paths of a mask.
pub open spec fn paths_view(mask: Seq<&[&str]>) -> Mask {
    Seq::new(mask.len(), |i: int| path_view(mask[i]))
}

/// Whether some path of the mask starts with `name`.
pub fn selected(mask: &Vec<&[&str]>, name: &str) -> (found: bool)
    ensures
        found == selects(paths_view(mask@), name@),
{
    let mut i: usize = 0;
    while i < mask.len()
        invariant
            i <= mask.len(),
            forall|j: int|
                0 <= j < i ==> !(#[trigger] paths_view(mask@)[j].len() > 0 && paths_view(
                    mask@,
                )[j][0] == name@),
        decreases mask.len() - i,
    {
        let path: &[&str] = mask[i];
        if path.len() > 0 && *path[0] == *name {
            assert(paths_view(mask@)[i as int].len() > 0 && paths_view(mask@)[i as int][0]
                == name@);
            return true;
        }
        i += 1;
    }
    false
}

/// The mask for what lies under the field `name`: the paths that start with
/// `name` and go on, each without its first name.
pub fn strip<'m>(mask: &Vec<&'m [&'m str]>, name: &str) -> (rest: Vec<&'m [&'m str]>)
    ensures
        paths_view(rest@) == residual(paths_view(mask@), name@, mask.len() as int),
{
    let mut rest: Vec<&'m [&'m str]> = Vec::new();
    let mut i: usize = 0;
    assert(paths_view(rest@) =~= residual(paths_view(mask@), name@, 0));
    while i < mask.len()
        invariant
            i <= mask.len(),
            paths_view(rest@) == residual(paths_view(mask@), name@, i as int),
        decreases mask.len() - i,
    {
        let path: &'m [&'m str] = mask[i];
        let ghost before = rest@;
        if path.len() > 1 && *path[0] == *name {
            let tail = slice_subrange(path, 1, path.len());
            rest.push(tail);
            assert(path_view(tail) =~= paths_view(mask@)[i as int].skip(1));
            assert(paths_view(rest@) =~= paths_view(before).push(path_view(tail)));
        }
        i += 1;
    }
    rest
}

} // verus!
