use nxfs::registry::{Entries, Entry, NodeInodes, ROOT_INODE};

#[test]
fn root_inode_is_one() {
    assert_eq!(ROOT_INODE, 1);
}

#[test]
fn empty_entries_resolve_nothing() {
    let e = Entries::new();
    assert_eq!(e.nxnode(1), None);
    assert_eq!(e.inodes(0), None);
}

#[test]
fn entries_resolve_both_ways() {
    let mut e = Entries::new();
    e.push(Entry { inodes: NodeInodes { main: 1, opt_data: None }, nxnode: 0 });
    e.push(Entry { inodes: NodeInodes { main: 2, opt_data: Some(3) }, nxnode: 7 });
    e.push(Entry { inodes: NodeInodes { main: 4, opt_data: None }, nxnode: 5 });
    assert_eq!(e.nxnode(1), Some(0));
    assert_eq!(e.nxnode(2), Some(7));
    assert_eq!(e.nxnode(3), Some(7));
    assert_eq!(e.nxnode(4), Some(5));
    assert_eq!(e.nxnode(5), None);
    assert_eq!(e.nxnode(0), None);
    assert_eq!(e.inodes(7), Some(NodeInodes { main: 2, opt_data: Some(3) }));
    assert_eq!(e.inodes(5), Some(NodeInodes { main: 4, opt_data: None }));
    assert_eq!(e.inodes(0), Some(NodeInodes { main: 1, opt_data: None }));
    assert_eq!(e.inodes(1), None);
}
