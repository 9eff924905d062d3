//! What holds of the registry in every state that the engine reaches.

use crate::archive::Archive;
use crate::clock::Timestamp;
use crate::filesystem::read_window;
use crate::state::{
    fresh_inodes, lemma_attribute, lemma_register, needs_data_inode, root_entry, upper, FsState,
};
use crate::registry::{holds_inode, holds_node, inodes_of, node_of, Entry, ROOT_INODE};
use crate::search::{first_where, lemma_first_where, lemma_first_where_push};
use vstd::prelude::*;

verus! {

/// Two different registered nodes share no inode number: neither a main nor a
/// data inode of one is a main or data inode of the other.
pub proof fn lemma_inodes_disjoint(a: Archive, t: Timestamp, st: FsState, n1: u32, n2: u32)
    requires
        st.wf(a, t),
        n1 != n2,
        inodes_of(st.entries, n1).is_some(),
        inodes_of(st.entries, n2).is_some(),
    ensures
        forall|k: u64|
            !(inodes_of(st.entries, n1).unwrap().has(k) && inodes_of(st.entries, n2).unwrap().has(
                k,
            )),
{
    lemma_first_where(st.entries, holds_node(n1));
    lemma_first_where(st.entries, holds_node(n2));
    let i = first_where(st.entries, holds_node(n1)).unwrap();
    let j = first_where(st.entries, holds_node(n2)).unwrap();
    if i < j {
        assert(upper(st.entries[i].inodes) < st.entries[j].inodes.main);
    } else {
        assert(upper(st.entries[j].inodes) < st.entries[i].inodes.main);
    }
}

/// Each inode of a registered node leads back to that node, and the node's
/// data inode differs from its main inode.
pub proof fn lemma_inodes_resolve(a: Archive, t: Timestamp, st: FsState, node: u32)
    requires
        st.wf(a, t),
        inodes_of(st.entries, node).is_some(),
    ensures
        forall|k: u64|
            inodes_of(st.entries, node).unwrap().has(k) ==> #[trigger] node_of(st.entries, k)
                == Some(node),
        inodes_of(st.entries, node).unwrap().opt_data != Some(
            inodes_of(st.entries, node).unwrap().main,
        ),
{
    lemma_first_where(st.entries, holds_node(node));
    let m = first_where(st.entries, holds_node(node)).unwrap();
    assert forall|k: u64| inodes_of(st.entries, node).unwrap().has(k) implies #[trigger] node_of(
        st.entries,
        k,
    ) == Some(node) by {
        lemma_first_where(st.entries, holds_inode(k));
        assert(holds_inode(k)(st.entries[m]));
        let f = first_where(st.entries, holds_inode(k)).unwrap();
        if f < m {
            assert(upper(st.entries[f].inodes) < st.entries[m].inodes.main);
        }
    }
}

/// Inode numbers are handed out in rising order and never again: what a new
/// registration hands out is not below the counter, and the counter moves
/// past it.
pub proof fn lemma_inodes_fresh(a: Archive, t: Timestamp, st: FsState, node: u32)
    requires
        st.wf(a, t),
        a.contains(node),
        inodes_of(st.entries, node).is_none(),
    ensures
        inodes_of(st.register(a, node).entries, node).unwrap().main == st.counter,
        upper(inodes_of(st.register(a, node).entries, node).unwrap()) < st.register(
            a,
            node,
        ).counter,
        forall|k: u64|
            inodes_of(st.register(a, node).entries, node).unwrap().has(k) ==> #[trigger] node_of(
                st.entries,
                k,
            ).is_none(),
{
    lemma_register(a, t, st, node);
    assert forall|k: u64|
        inodes_of(st.register(a, node).entries, node).unwrap().has(k) implies #[trigger] node_of(
        st.entries,
        k,
    ).is_none() by {
        lemma_first_where(st.entries, holds_inode(k));
    }
}

/// Asking twice for a node's inodes changes nothing the second time, and
/// gives the same inodes.
pub proof fn lemma_register_idempotent(a: Archive, st: FsState, node: u32)
    ensures
        st.register(a, node).register(a, node) == st.register(a, node),
        inodes_of(st.register(a, node).entries, node).is_some(),
{
    if inodes_of(st.entries, node).is_none() {
        let e = Entry { inodes: fresh_inodes(a, st.counter, node), nxnode: node };
        lemma_first_where_push(st.entries, e, holds_node(node));
    }
}

/// A node's inodes stay what they are, whatever is registered after it.
pub proof fn lemma_inodes_stable(a: Archive, st: FsState, node: u32, other: u32)
    requires
        inodes_of(st.entries, node).is_some(),
    ensures
        inodes_of(st.register(a, other).entries, node) == inodes_of(st.entries, node),
{
    if inodes_of(st.entries, other).is_none() {
        let e = Entry {
            inodes: fresh_inodes(a, st.counter, other),
            nxnode: other,
        };
        lemma_first_where_push(st.entries, e, holds_node(node));
        lemma_first_where(st.entries, holds_node(node));
    }
}

/// Asking twice for a node's attributes changes nothing the second time.
pub proof fn lemma_attribute_idempotent(a: Archive, t: Timestamp, st: FsState, node: u32)
    ensures
        st.attribute(a, t, node).attribute(a, t, node) == st.attribute(a, t, node),
{
    lemma_register_idempotent(a, st, node);
    let once = st.attribute(a, t, node);
    assert(once.register(a, node) == once);
    assert(once.attribute(a, t, node).attrs =~= once.attrs);
}

/// A record, once made, is never changed: whatever node is attributed next,
/// an inode that had a record keeps it.
pub proof fn lemma_attrs_stable(a: Archive, t: Timestamp, st: FsState, other: u32, ino: u64)
    requires
        st.attrs.contains_key(ino),
    ensures
        st.attribute(a, t, other).attrs.contains_key(ino),
        st.attribute(a, t, other).attrs[ino] == st.attrs[ino],
{
}

/// A registered node has a data inode exactly where it has a child and its
/// value is not empty.
pub proof fn lemma_data_inode_law(a: Archive, t: Timestamp, st: FsState, node: u32)
    requires
        st.wf(a, t),
        inodes_of(st.entries, node).is_some(),
    ensures
        inodes_of(st.entries, node).unwrap().opt_data.is_some() <==> needs_data_inode(a, node),
{
    lemma_first_where(st.entries, holds_node(node));
}

/// The root keeps the root inode, with the inode after it as data inode
/// where it needs one, and each of them keeps its record.
pub proof fn lemma_root_inodes(a: Archive, t: Timestamp, st: FsState)
    requires
        st.wf(a, t),
    ensures
        inodes_of(st.entries, 0) == Some(root_entry(a).inodes),
        inodes_of(st.entries, 0).unwrap().main == ROOT_INODE,
        forall|k: u64| root_entry(a).inodes.has(k) ==> #[trigger] st.attrs.contains_key(k),
{
    lemma_first_where(st.entries, holds_node(0));
    assert(holds_node(0)(st.entries[0]));
}

/// Every step keeps the invariant, keeps what was registered, and only adds
/// records: no inode goes back from attributed to registered, or from
/// registered to unknown.
pub proof fn lemma_steps_keep_invariant(a: Archive, t: Timestamp, st: FsState, node: u32)
    requires
        st.wf(a, t),
        a.contains(node),
    ensures
        st.register(a, node).wf(a, t),
        st.attribute(a, t, node).wf(a, t),
        forall|k: u64| #[trigger]
            node_of(st.entries, k).is_some() ==> node_of(st.register(a, node).entries, k)
                == node_of(st.entries, k) && node_of(st.attribute(a, t, node).entries, k)
                == node_of(st.entries, k),
        forall|k: u64| #[trigger]
            st.attrs.contains_key(k) ==> st.attribute(a, t, node).attrs.contains_key(k)
                && st.attribute(a, t, node).attrs[k] == st.attrs[k],
        forall|k: u64| #[trigger]
            st.attribute(a, t, node).attrs.contains_key(k) ==> node_of(
                st.attribute(a, t, node).entries,
                k,
            ).is_some(),
{
    lemma_register(a, t, st, node);
    lemma_attribute(a, t, st, node);
}

/// A read never reaches past the content: it serves at most `size` bytes,
/// none at or after the end, and all of the content for a window that covers
/// it.
pub proof fn lemma_read_window(data: Seq<u8>, offset: u64, size: u32)
    ensures
        read_window(data, offset, size).len() <= size,
        read_window(data, offset, size).len() <= data.len(),
        offset >= data.len() ==> read_window(data, offset, size) == Seq::<u8>::empty(),
        offset == 0 && size >= data.len() ==> read_window(data, offset, size) == data,
        forall|k: int|
            0 <= k < read_window(data, offset, size).len() ==> read_window(data, offset, size)[k]
                == data[offset + k],
{
    if offset >= data.len() {
        assert(read_window(data, offset, size) =~= Seq::<u8>::empty());
    }
    if offset == 0 && size >= data.len() {
        assert(read_window(data, offset, size) =~= data);
    }
}

} // verus!
