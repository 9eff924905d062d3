//! The inode registry: which inode numbers stand for which archive node.

use crate::search::{first_where, lemma_first_where_prefix};
use vstd::prelude::*;

verus! {

/// The inode of the filesystem's root.
pub const ROOT_INODE: u64 = 1;

/// Inodes of an archive node.
#[derive(Clone, Copy, Debug, PartialEq, Eq)]
pub struct NodeInodes {
    /// The main inode: a directory where the node has children, else a
    /// regular file.
    pub main: u64,
    /// The inode of the extra `<name>_data` file, for a node that has both
    /// children and a value.
    pub opt_data: Option<u64>,
}

impl NodeInodes {
    /// `ino` is one of these inodes.
    pub open spec fn has(&self, ino: u64) -> bool {
        self.main == ino || self.opt_data == Some(ino)
    }
}

/// An archive node with its inodes.
#[derive(Clone, Copy, Debug, PartialEq, Eq)]
pub struct Entry {
    pub inodes: NodeInodes,
    pub nxnode: u32,
}

pub struct Entries {
    pub vec: Vec<Entry>,
}

pub open spec fn holds_inode(ino: u64) -> spec_fn(Entry) -> bool {
    |e: Entry| e.inodes.has(ino)
}

pub open spec fn holds_node(node: u32) -> spec_fn(Entry) -> bool {
    |e: Entry| e.nxnode == node
}

/// The node that `ino` stands for, as main or as data inode.
pub open spec fn node_of(entries: Seq<Entry>, ino: u64) -> Option<u32> {
    match first_where(entries, holds_inode(ino)) {
        Some(k) => Some(entries[k].nxnode),
        None => None,
    }
}

/// The inodes that `node` was given.
pub open spec fn inodes_of(entries: Seq<Entry>, node: u32) -> Option<NodeInodes> {
    match first_where(entries, holds_node(node)) {
        Some(k) => Some(entries[k].inodes),
        None => None,
    }
}

impl Entries {
    pub fn new() -> (r: Entries)
        ensures
            r.vec@ == Seq::<Entry>::empty(),
    {
        Entries { vec: Vec::new() }
    }

    pub fn push(&mut self, pair: Entry)
        ensures
            final(self).vec@ == old(self).vec@.push(pair),
    {
        self.vec.push(pair);
    }

    /// The archive node belonging to an inode.
    pub fn nxnode(&self, inode: u64) -> (r: Option<u32>)
        ensures
            r == node_of(self.vec@, inode),
    {
        let mut i: usize = 0;
        while i < self.vec.len()
            invariant
                0 <= i <= self.vec@.len(),
                first_where(self.vec@.take(i as int), holds_inode(inode)).is_none(),
            decreases self.vec@.len() - i,
        {
            let entry = self.vec[i];
            assert(self.vec@.take(i + 1).drop_last() == self.vec@.take(i as int));
            let found = entry.inodes.main == inode || match entry.inodes.opt_data {
                Some(ino) => inode == ino,
                None => false,
            };
            if found {
                proof {
                    lemma_first_where_prefix(self.vec@, i + 1, holds_inode(inode));
                }
                return Some(entry.nxnode);
            }
            i += 1;
        }
        assert(self.vec@.take(i as int) == self.vec@);
        None
    }

    /// The inodes belonging to an archive node.
    pub fn inodes(&self, node: u32) -> (r: Option<NodeInodes>)
        ensures
            r == inodes_of(self.vec@, node),
    {
        let mut i: usize = 0;
        while i < self.vec.len()
            invariant
                0 <= i <= self.vec@.len(),
                first_where(self.vec@.take(i as int), holds_node(node)).is_none(),
            decreases self.vec@.len() - i,
        {
            let entry = self.vec[i];
            assert(self.vec@.take(i + 1).drop_last() == self.vec@.take(i as int));
            if entry.nxnode == node {
                proof {
                    lemma_first_where_prefix(self.vec@, i + 1, holds_node(node));
                }
                return Some(entry.inodes);
            }
            i += 1;
        }
        assert(self.vec@.take(i as int) == self.vec@);
        None
    }
}

} // verus!
