//! The search path: the entries of the `PATH` variable that are directories.
use vstd::prelude::*;
use crate::text::{pieces, split_pieces, views};

verus! {

/// The elements of `entries` whose flag in `keep` is set, in order.
pub open spec fn kept(entries: Seq<Seq<char>>, keep: Seq<bool>) -> Seq<Seq<char>>
    decreases entries.len(),
{
    if entries.len() == 0 || keep.len() == 0 {
        Seq::empty()
    } else {
        let prev = kept(entries.drop_last(), keep.take(entries.len() - 1));
        if keep[entries.len() - 1] {
            prev.push(entries.last())
        } else {
            prev
        }
    }
}

/// The entries of a `PATH` value: its pieces between `:`.
pub fn path_entries(path_var: &str) -> (res: Vec<String>)
    ensures
        views(res@) == pieces(path_var@, ':'),
{
    split_pieces(path_var, ':')
}

/// The search path: the entries that exist and are directories (`is_dir`
/// holds the answer for each entry, in order).
pub fn path(entries: &Vec<String>, is_dir: &Vec<bool>) -> (res: Vec<String>)
    requires
        is_dir@.len() == entries@.len(),
    ensures
        views(res@) == kept(views(entries@), is_dir@),
{
    let mut result: Vec<String> = Vec::new();
    let mut i: usize = 0;
    while i < entries.len()
        invariant
            i <= entries.len(),
            is_dir@.len() == entries@.len(),
            views(result@) == kept(views(entries@).take(i as int), is_dir@.take(i as int)),
        decreases entries.len() - i,
    {
        let ghost before = result@;
        proof {
            let t = views(entries@).take(i + 1);
            assert(t.drop_last() =~= views(entries@).take(i as int));
            assert(is_dir@.take(i + 1).take(i as int) =~= is_dir@.take(i as int));
            assert(t.last() == entries@[i as int]@);
        }
        if is_dir[i] {
            result.push(entries[i].clone());
            proof {
                assert(views(result@) =~= views(before).push(entries@[i as int]@));
            }
        }
        i = i + 1;
    }
    proof {
        assert(views(entries@).take(entries.len() as int) =~= views(entries@));
        assert(is_dir@.take(entries.len() as int) =~= is_dir@);
    }
    result
}

} // verus!
