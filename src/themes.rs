//! The theme list: the regular files directly under the themes directory,
//! by name, in ascending order.

use vstd::prelude::*;
use crate::order::{names_of, names_sorted, sort_names};

verus! {

/// One entry of the themes directory, as listed: its exact name and whether
/// it is a regular file.
pub struct ThemeEntry {
    pub name: String,
    pub is_file: bool,
}

/// The names of the regular files among `entries`, in listing order.
pub open spec fn file_names(entries: Seq<ThemeEntry>) -> Seq<Seq<char>> {
    entries.filter_map(|e: ThemeEntry| if e.is_file { Some(e.name@) } else { None })
}

/// The names of the regular files among `entries` (subdirectories and other
/// entries left out), sorted ascending.
pub fn theme_names(entries: Vec<ThemeEntry>) -> (r: Vec<String>)
    ensures
        names_of(r@).to_multiset() == file_names(entries@).to_multiset(),
        names_sorted(names_of(r@)),
        r@.len() == file_names(entries@).len(),
{
    let mut files: Vec<String> = Vec::new();
    let mut i: usize = 0;
    while i < entries.len()
        invariant
            i <= entries@.len(),
            names_of(files@) == file_names(entries@.subrange(0, i as int)),
        decreases entries.len() - i,
    {
        let ghost pre = entries@.subrange(0, i as int);
        assert(entries@.subrange(0, i + 1).drop_last() =~= pre);
        if entries[i].is_file {
            files.push(entries[i].name.clone());
            assert(names_of(files@) =~= file_names(pre) + seq![entries@[i as int].name@]);
        }
        i = i + 1;
    }
    assert(entries@.subrange(0, entries@.len() as int) =~= entries@);
    let r = sort_names(files);
    proof {
        names_of(r@).to_multiset_ensures();
        file_names(entries@).to_multiset_ensures();
    }
    r
}

} // verus!
