//! Directory listings.

use crate::archive::Archive;
use crate::attr::FileType;
use crate::names::data_suffix;
use crate::registry::{inodes_of, Entry};
use crate::state::file_type;
use vstd::prelude::*;

verus! {

/// One entry of a directory listing.
#[derive(Clone, Debug, PartialEq, Eq)]
pub struct DirEntry {
    pub ino: u64,
    /// The entry's position in the listing, counted from 1.
    pub offset: u64,
    pub kind: FileType,
    pub name: String,
}

/// What a directory entry says.
pub struct DirItem {
    pub ino: u64,
    pub offset: int,
    pub kind: FileType,
    pub name: Seq<char>,
}

impl View for DirEntry {
    type V = DirItem;

    open spec fn view(&self) -> DirItem {
        DirItem { ino: self.ino, offset: self.offset as int, kind: self.kind, name: self.name@ }
    }
}

pub open spec fn entry_views(s: Seq<DirEntry>) -> Seq<DirItem> {
    s.map_values(|e: DirEntry| e@)
}

/// The entries that one child adds to a listing that holds `at` entries: its
/// main inode under its name, then, where it has a data inode, that inode as
/// a regular file under its name with the data suffix.
pub open spec fn child_items(a: Archive, entries: Seq<Entry>, child: u32, at: int) -> Seq<DirItem> {
    let inodes = inodes_of(entries, child).unwrap();
    let first = DirItem {
        ino: inodes.main,
        offset: at + 1,
        kind: file_type(a, child),
        name: a.spec_name(child),
    };
    match inodes.opt_data {
        Some(d) => seq![
            first,
            DirItem {
                ino: d,
                offset: at + 2,
                kind: FileType::RegularFile,
                name: a.spec_name(child) + data_suffix(),
            },
        ],
        None => seq![first],
    }
}

/// The listing of `children`, in their order, with the inodes that `entries`
/// gives them.
pub open spec fn listing(a: Archive, entries: Seq<Entry>, children: Seq<u32>) -> Seq<DirItem>
    decreases children.len(),
{
    if children.len() == 0 {
        Seq::empty()
    } else {
        let before = listing(a, entries, children.drop_last());
        before + child_items(a, entries, children.last(), before.len() as int)
    }
}

/// A listing does not change when entries are added for other nodes.
pub proof fn lemma_listing_stable(
    a: Archive,
    before: Seq<Entry>,
    after: Seq<Entry>,
    children: Seq<u32>,
)
    requires
        forall|k: int| 0 <= k < children.len() ==> inodes_of(before, #[trigger] children[k]).is_some(),
        forall|n: u32| #[trigger]
            inodes_of(before, n).is_some() ==> inodes_of(after, n) == inodes_of(before, n),
    ensures
        listing(a, after, children) == listing(a, before, children),
    decreases children.len(),
{
    if children.len() > 0 {
        assert forall|k: int| 0 <= k < children.len() - 1 implies inodes_of(
            before,
            #[trigger] children.drop_last()[k],
        ).is_some() by {
            assert(children.drop_last()[k] == children[k]);
        }
        lemma_listing_stable(a, before, after, children.drop_last());
        assert(inodes_of(before, children[children.len() - 1]).is_some());
    }
}

/// A listing has one or two entries for each child, and each entry's cookie
/// is its position, counted from 1.
pub proof fn lemma_listing_offsets(a: Archive, entries: Seq<Entry>, children: Seq<u32>)
    ensures
        children.len() <= listing(a, entries, children).len() <= 2 * children.len(),
        forall|k: int|
            0 <= k < listing(a, entries, children).len() ==> (#[trigger] listing(
                a,
                entries,
                children,
            )[k]).offset == k + 1,
    decreases children.len(),
{
    if children.len() > 0 {
        lemma_listing_offsets(a, entries, children.drop_last());
    }
}

} // verus!
