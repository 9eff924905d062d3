//! The engine's changing state as a value: the rules by which nodes get
//! inodes and inodes get attribute records, and what holds of every state.

use crate::archive::{Archive, ValueKind};
use crate::attr::{FileAttr, FileType, NodeFileAttrs};
use crate::clock::Timestamp;
use crate::content::content;
use crate::registry::{holds_inode, holds_node, inodes_of, node_of, Entry, NodeInodes, ROOT_INODE};
use crate::search::{first_where, lemma_first_where, lemma_first_where_push};
use vstd::prelude::*;
use vstd::set_lib::{lemma_int_range, lemma_len_subset, set_int_range};

verus! {

/// The part of the engine that changes: the registered entries in the order
/// of their registration, the next inode, and the attribute cache.
pub struct FsState {
    pub entries: Seq<Entry>,
    pub counter: u64,
    pub attrs: Map<u64, FileAttr>,
}

/// A node shows as a directory where it has children, else as a regular file.
pub open spec fn file_type(a: Archive, node: u32) -> FileType {
    if a.spec_has_children(node) {
        FileType::Directory
    } else {
        FileType::RegularFile
    }
}

/// A node gets a second inode where it has children and also a value.
pub open spec fn needs_data_inode(a: Archive, node: u32) -> bool {
    a.spec_has_children(node) && a.spec_value(node).spec_kind() != ValueKind::Empty
}

/// The length of a node's content.
pub open spec fn content_size(a: Archive, node: u32) -> u64 {
    content(a.spec_value(node)).len() as u64
}

/// The inodes that a node gets when `counter` is the next free one.
pub open spec fn fresh_inodes(a: Archive, counter: u64, node: u32) -> NodeInodes {
    NodeInodes {
        main: counter,
        opt_data: if needs_data_inode(a, node) {
            Some((counter + 1) as u64)
        } else {
            None
        },
    }
}

/// The entry of the root: the root inode, and the inode after it as data
/// inode where the root has children and also a value.
pub open spec fn root_entry(a: Archive) -> Entry {
    Entry { inodes: fresh_inodes(a, ROOT_INODE, 0), nxnode: 0 }
}

/// The record of the root inode: an empty directory entry.
pub open spec fn root_attr(t: Timestamp) -> FileAttr {
    FileAttr::spec_new(ROOT_INODE, 0, FileType::Directory, t)
}

/// The record that a registered inode gets: the root's for the root inode;
/// else the size of the node's content, and the node's file type for a main
/// inode, a regular file for a data inode.
pub open spec fn expected_attr(a: Archive, t: Timestamp, entries: Seq<Entry>, ino: u64) -> FileAttr {
    let e = entries[first_where(entries, holds_inode(ino)).unwrap()];
    if ino == ROOT_INODE {
        root_attr(t)
    } else if e.inodes.main == ino {
        FileAttr::spec_new(ino, content_size(a, e.nxnode), file_type(a, e.nxnode), t)
    } else {
        FileAttr::spec_new(ino, content_size(a, e.nxnode), FileType::RegularFile, t)
    }
}

/// The records of both inodes, as the cache holds them.
pub open spec fn attrs_of(attrs: Map<u64, FileAttr>, inodes: NodeInodes) -> NodeFileAttrs {
    NodeFileAttrs {
        main: attrs[inodes.main],
        opt_data: match inodes.opt_data {
            Some(d) => Some(attrs[d]),
            None => None,
        },
    }
}

/// The highest inode of a node.
pub open spec fn upper(inodes: NodeInodes) -> u64 {
    match inodes.opt_data {
        Some(d) => d,
        None => inodes.main,
    }
}

impl FsState {
    /// The state of a new engine: the root registered, with a data inode
    /// where it needs one, and each of its inodes attributed.
    pub open spec fn initial(a: Archive, t: Timestamp) -> FsState {
        let inodes = root_entry(a).inodes;
        let with_main = Map::<u64, FileAttr>::empty().insert(ROOT_INODE, root_attr(t));
        FsState {
            entries: seq![root_entry(a)],
            counter: (upper(inodes) + 1) as u64,
            attrs: match inodes.opt_data {
                Some(d) => with_main.insert(
                    d,
                    FileAttr::spec_new(d, content_size(a, 0), FileType::RegularFile, t),
                ),
                None => with_main,
            },
        }
    }

    /// The state after `node` was asked for its inodes: unchanged where it
    /// has them, else with a new entry that takes the next one or two inodes.
    pub open spec fn register(self, a: Archive, node: u32) -> FsState {
        if inodes_of(self.entries, node).is_some() {
            self
        } else {
            let inodes = fresh_inodes(a, self.counter, node);
            FsState {
                entries: self.entries.push(Entry { inodes, nxnode: node }),
                counter: (upper(inodes) + 1) as u64,
                attrs: self.attrs,
            }
        }
    }

    /// The state after `node` was asked for its attributes: registered, and
    /// each of its inodes with a record, an earlier record left as it was.
    pub open spec fn attribute(self, a: Archive, t: Timestamp, node: u32) -> FsState {
        let st = self.register(a, node);
        let inodes = inodes_of(st.entries, node).unwrap();
        let size = content_size(a, node);
        let with_main = if st.attrs.contains_key(inodes.main) {
            st.attrs
        } else {
            st.attrs.insert(inodes.main, FileAttr::spec_new(inodes.main, size, file_type(a, node), t))
        };
        let with_data = match inodes.opt_data {
            Some(d) => if with_main.contains_key(d) {
                with_main
            } else {
                with_main.insert(d, FileAttr::spec_new(d, size, FileType::RegularFile, t))
            },
            None => with_main,
        };
        FsState { entries: st.entries, counter: st.counter, attrs: with_data }
    }

    /// The invariant of the engine's state, for archive `a` and creation
    /// time `t`.
    pub open spec fn wf(self, a: Archive, t: Timestamp) -> bool {
        let entries = self.entries;
        &&& a.wf()
        &&& entries.len() >= 1
        &&& entries[0] == root_entry(a)
        &&& 2 <= self.counter <= 2 * entries.len() + 1
        &&& forall|i: int|
            0 <= i < entries.len() ==> {
                let e = #[trigger] entries[i];
                &&& a.contains(e.nxnode)
                &&& ROOT_INODE <= e.inodes.main < self.counter
                &&& e.inodes.opt_data matches Some(d) ==> d == e.inodes.main + 1 && d
                    < self.counter
            }
        &&& forall|i: int, j: int|
            0 <= i < j < entries.len() ==> (#[trigger] entries[i]).nxnode != (
            #[trigger] entries[j]).nxnode
        &&& forall|i: int, j: int|
            0 <= i < j < entries.len() ==> upper((#[trigger] entries[i]).inodes) < (
            #[trigger] entries[j]).inodes.main
        &&& forall|i: int|
            0 <= i < entries.len() ==> ((#[trigger] entries[i]).inodes.opt_data.is_some()
                <==> needs_data_inode(a, entries[i].nxnode))
        &&& forall|k: u64| entries[0].inodes.has(k) ==> #[trigger] self.attrs.contains_key(k)
        &&& forall|k: u64| #[trigger]
            self.attrs.contains_key(k) ==> node_of(entries, k).is_some() && self.attrs[k]
                == expected_attr(a, t, entries, k)
    }
}

/// Entries whose nodes differ pairwise are no more than there are node
/// numbers.
pub proof fn lemma_entries_bounded(entries: Seq<Entry>)
    requires
        forall|i: int, j: int|
            0 <= i < j < entries.len() ==> (#[trigger] entries[i]).nxnode != (
            #[trigger] entries[j]).nxnode,
    ensures
        entries.len() <= 0x1_0000_0000,
{
    let ids = entries.map_values(|e: Entry| e.nxnode as int);
    assert forall|i: int, j: int| 0 <= i < ids.len() && 0 <= j < ids.len() && i != j implies ids[i]
        != ids[j] by {
        if i < j {
            assert(entries[i].nxnode != entries[j].nxnode);
        } else {
            assert(entries[j].nxnode != entries[i].nxnode);
        }
    }
    ids.unique_seq_to_set();
    lemma_int_range(0, 0x1_0000_0000);
    assert forall|x: int| ids.to_set().contains(x) implies set_int_range(0, 0x1_0000_0000).contains(
        x,
    ) by {
        let i = choose|i: int| 0 <= i < ids.len() && ids[i] == x;
        assert(ids[i] == entries[i].nxnode as int);
    }
    lemma_len_subset(ids.to_set(), set_int_range(0, 0x1_0000_0000));
}

/// The state of a new engine meets the invariant, over any well-formed
/// archive: each inode of the root stands for the root and has a record.
pub proof fn lemma_initial(a: Archive, t: Timestamp)
    requires
        a.wf(),
    ensures
        FsState::initial(a, t).wf(a, t),
        inodes_of(FsState::initial(a, t).entries, 0) == Some(root_entry(a).inodes),
        forall|k: u64|
            root_entry(a).inodes.has(k) ==> #[trigger] node_of(FsState::initial(a, t).entries, k)
                == Some(0u32) && FsState::initial(a, t).attrs.contains_key(k),
        FsState::initial(a, t).attrs[ROOT_INODE] == root_attr(t),
{
    let init = FsState::initial(a, t);
    assert(Seq::<Entry>::empty().push(root_entry(a)) =~= init.entries);
    lemma_first_where_push(Seq::<Entry>::empty(), root_entry(a), holds_node(0));
    assert forall|k: u64|
        first_where(init.entries, holds_inode(k)) == if root_entry(a).inodes.has(k) {
            Some(0int)
        } else {
            None
        } by {
        lemma_first_where_push(Seq::<Entry>::empty(), root_entry(a), holds_inode(k));
    }
}

/// Registration keeps the invariant, registers the node, and leaves what was
/// registered before as it was.
pub proof fn lemma_register(a: Archive, t: Timestamp, st: FsState, node: u32)
    requires
        st.wf(a, t),
        a.contains(node),
    ensures
        st.register(a, node).wf(a, t),
        inodes_of(st.register(a, node).entries, node).is_some(),
        inodes_of(st.entries, node).is_none() ==> inodes_of(st.register(a, node).entries, node)
            == Some(fresh_inodes(a, st.counter, node)),
        forall|n: u32| #[trigger]
            inodes_of(st.entries, n).is_some() ==> inodes_of(st.register(a, node).entries, n)
                == inodes_of(st.entries, n),
        forall|k: u64| #[trigger]
            node_of(st.entries, k).is_some() ==> node_of(st.register(a, node).entries, k)
                == node_of(st.entries, k),
        st.counter <= st.register(a, node).counter,
{
    let after = st.register(a, node);
    if inodes_of(st.entries, node).is_none() {
        let inodes = fresh_inodes(a, st.counter, node);
        let e = Entry { inodes, nxnode: node };
        lemma_entries_bounded(st.entries);
        lemma_first_where(st.entries, holds_node(node));
        lemma_first_where_push(st.entries, e, holds_node(node));
        assert(after.entries == st.entries.push(e));
        assert forall|n: u32| #[trigger] inodes_of(st.entries, n).is_some() implies inodes_of(
            after.entries,
            n,
        ) == inodes_of(st.entries, n) by {
            lemma_first_where_push(st.entries, e, holds_node(n));
            lemma_first_where(st.entries, holds_node(n));
        }
        assert forall|k: u64| #[trigger] node_of(st.entries, k).is_some() implies node_of(
            after.entries,
            k,
        ) == node_of(st.entries, k) && expected_attr(a, t, after.entries, k) == expected_attr(
            a,
            t,
            st.entries,
            k,
        ) by {
            lemma_first_where_push(st.entries, e, holds_inode(k));
            lemma_first_where(st.entries, holds_inode(k));
        }
        assert forall|i: int, j: int| 0 <= i < j < after.entries.len() implies (
        #[trigger] after.entries[i]).nxnode != (#[trigger] after.entries[j]).nxnode by {
            if j == st.entries.len() {
                assert(!holds_node(node)(st.entries[i]));
            }
        }
        assert(after.wf(a, t));
    }
}

/// Attribution keeps the invariant and gives each inode of the node a record.
pub proof fn lemma_attribute(a: Archive, t: Timestamp, st: FsState, node: u32)
    requires
        st.wf(a, t),
        a.contains(node),
    ensures
        st.attribute(a, t, node).wf(a, t),
        st.attribute(a, t, node).entries == st.register(a, node).entries,
        st.attribute(a, t, node).counter == st.register(a, node).counter,
        forall|k: u64| #[trigger]
            st.attrs.contains_key(k) ==> st.attribute(a, t, node).attrs.contains_key(k)
                && st.attribute(a, t, node).attrs[k] == st.attrs[k],
        forall|k: u64|
            inodes_of(st.register(a, node).entries, node).unwrap().has(k) ==> #[trigger] st.attribute(
                a,
                t,
                node,
            ).attrs.contains_key(k),
        forall|k: u64|
            inodes_of(st.register(a, node).entries, node).unwrap().has(k) ==> #[trigger] node_of(
                st.attribute(a, t, node).entries,
                k,
            ) == Some(node),
        forall|n: u32| #[trigger]
            inodes_of(st.entries, n).is_some() ==> inodes_of(st.attribute(a, t, node).entries, n)
                == inodes_of(st.entries, n),
        forall|k: u64| #[trigger]
            node_of(st.entries, k).is_some() ==> node_of(st.attribute(a, t, node).entries, k)
                == node_of(st.entries, k),
{
    lemma_register(a, t, st, node);
    let reg = st.register(a, node);
    let after = st.attribute(a, t, node);
    let inodes = inodes_of(reg.entries, node).unwrap();
    lemma_first_where(reg.entries, holds_node(node));
    let m = first_where(reg.entries, holds_node(node)).unwrap();
    assert(reg.entries[m].inodes == inodes);
    assert forall|k: u64| inodes.has(k) implies first_where(reg.entries, holds_inode(k)) == Some(
        m,
    ) by {
        lemma_first_where(reg.entries, holds_inode(k));
        assert(holds_inode(k)(reg.entries[m]));
        let f = first_where(reg.entries, holds_inode(k)).unwrap();
        if f < m {
            assert(upper(reg.entries[f].inodes) < reg.entries[m].inodes.main);
        }
    }
    assert forall|k: u64| #[trigger] after.attrs.contains_key(k) implies node_of(
        after.entries,
        k,
    ).is_some() && after.attrs[k] == expected_attr(a, t, after.entries, k) by {
        if !reg.attrs.contains_key(k) {
            assert(inodes.has(k));
            assert(k != ROOT_INODE);
        }
    }
}

/// The state after each of `children` in turn was asked for its attributes.
pub open spec fn attribute_all(st: FsState, a: Archive, t: Timestamp, children: Seq<u32>) -> FsState
    decreases children.len(),
{
    if children.len() == 0 {
        st
    } else {
        attribute_all(st, a, t, children.drop_last()).attribute(a, t, children.last())
    }
}

/// Whether a node has children.
pub fn node_has_children(a: &Archive, node: u32) -> (r: bool)
    requires
        a.contains(node),
    ensures
        r == a.spec_has_children(node),
{
    a.children(node).len() > 0
}

/// The file type that a node's main inode shows.
pub fn node_file_type(a: &Archive, node: u32) -> (r: FileType)
    requires
        a.contains(node),
    ensures
        r == file_type(*a, node),
{
    if node_has_children(a, node) {
        FileType::Directory
    } else {
        FileType::RegularFile
    }
}

} // verus!
