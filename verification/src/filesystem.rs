//! The projection engine: the archive, the registry and the attribute cache,
//! and the protocol operations on them.

use crate::archive::{Archive, ValueKind};
use crate::attr::{FileAttr, FileType, NodeFileAttrs};
use crate::clock::{current_time, Timestamp};
use crate::content::{content, node_data};
use crate::listing::{child_items, entry_views, lemma_listing_stable, listing, DirEntry, DirItem};
use crate::names::{
    data_suffix, lookup_target, presented_inode, resolve_name, LookupError, Presentation,
};
use crate::registry::{
    holds_inode, holds_node, inodes_of, node_of, Entries, Entry, NodeInodes, ROOT_INODE,
};
use crate::search::lemma_first_where;
use crate::state::{
    attribute_all, attrs_of, expected_attr, lemma_attribute, lemma_entries_bounded, lemma_initial,
    lemma_register, node_file_type, node_has_children, root_entry, FsState,
};
use std::collections::HashMap;
use vstd::pervasive::unreached;
use vstd::prelude::*;
use vstd::slice::{slice_subrange, slice_to_vec};
use vstd::string::*;

verus! {

broadcast use vstd::std_specs::hash::group_hash_axioms;

/// The engine: an archive, the inodes handed out for its nodes so far, and
/// the attribute records made so far.
pub struct NxFilesystem<'a> {
    pub nx_file: &'a Archive,
    pub entries: Entries,
    /// The next inode to hand out.
    pub inode_counter: u64,
    pub create_time: Timestamp,
    pub inode_attrs: HashMap<u64, FileAttr>,
}

/// The part of `data` that a read of `size` bytes from `offset` serves: the
/// window cut down to the data.
pub open spec fn read_window(data: Seq<u8>, offset: u64, size: u32) -> Seq<u8> {
    let from = if offset < data.len() {
        offset as int
    } else {
        data.len() as int
    };
    let to = if offset + size < data.len() {
        offset + size
    } else {
        data.len() as int
    };
    data.subrange(from, to)
}

impl<'a> View for NxFilesystem<'a> {
    type V = FsState;

    open spec fn view(&self) -> FsState {
        FsState {
            entries: self.entries.vec@,
            counter: self.inode_counter,
            attrs: self.inode_attrs@,
        }
    }
}

impl<'a> NxFilesystem<'a> {
    /// The engine's invariant.
    pub open spec fn wf(&self) -> bool {
        self@.wf(*self.nx_file, self.create_time)
    }

    /// `ino` stands for a node.
    pub open spec fn registered(&self, ino: u64) -> bool {
        node_of(self@.entries, ino).is_some()
    }

    /// `ino` has an attribute record.
    pub open spec fn attributed(&self, ino: u64) -> bool {
        self@.attrs.contains_key(ino)
    }

    /// Nothing that `before` knew is lost or changed: each inode that stood
    /// for a node still stands for it, and each record is what it was.
    pub open spec fn extends(&self, before: &Self) -> bool {
        &&& self.nx_file == before.nx_file
        &&& self.create_time == before.create_time
        &&& forall|k: u64| #[trigger]
            before.registered(k) ==> node_of(self@.entries, k) == node_of(before@.entries, k)
        &&& forall|k: u64| #[trigger]
            before.attributed(k) ==> self.attributed(k) && self@.attrs[k] == before@.attrs[k]
    }

    /// An engine over `nx_file`, created now: the root registered and
    /// attributed, with a data inode where it has children and a value,
    /// nothing else.
    pub fn new_with_nx_file(nx_file: &'a Archive) -> (fs: Self)
        requires
            nx_file.wf(),
        ensures
            fs.wf(),
            fs.nx_file == nx_file,
            fs@ == FsState::initial(*nx_file, fs.create_time),
            inodes_of(fs@.entries, 0) == Some(root_entry(*nx_file).inodes),
            fs.registered(ROOT_INODE),
            fs.attributed(ROOT_INODE),
    {
        Self::new_at(nx_file, current_time())
    }

    /// An engine over `nx_file` with the given creation time: the root
    /// registered and attributed, with a data inode where it has children and
    /// a value, nothing else.
    pub fn new_at(nx_file: &'a Archive, create_time: Timestamp) -> (fs: Self)
        requires
            nx_file.wf(),
        ensures
            fs.wf(),
            fs.nx_file == nx_file,
            fs.create_time == create_time,
            fs@ == FsState::initial(*nx_file, create_time),
            inodes_of(fs@.entries, 0) == Some(root_entry(*nx_file).inodes),
            fs.registered(ROOT_INODE),
            fs.attributed(ROOT_INODE),
    {
        let pairs = Entries::new();
        let mut fs = NxFilesystem {
            nx_file,
            entries: pairs,
            inode_counter: ROOT_INODE + 1,
            create_time,
            inode_attrs: HashMap::new(),
        };
        // Add root node
        let root = nx_file.root();
        let attr = FileAttr::new(ROOT_INODE, 0, FileType::Directory, create_time);
        fs.inode_attrs.insert(ROOT_INODE, attr);
        let opt_data_inode = if node_has_children(nx_file, root) && !matches!(
            nx_file.value(root).kind(),
            ValueKind::Empty
        ) {
            let inode = fs.new_inode();
            let size = node_data(nx_file.value(root)).len() as u64;
            fs.inode_attrs.insert(
                inode,
                FileAttr::new(inode, size, FileType::RegularFile, create_time),
            );
            Some(inode)
        } else {
            None
        };
        fs.entries.push(
            Entry { nxnode: root, inodes: NodeInodes { main: ROOT_INODE, opt_data: opt_data_inode } },
        );
        proof {
            lemma_initial(*nx_file, create_time);
            assert(fs@.entries =~= FsState::initial(*nx_file, create_time).entries);
            assert(fs@.attrs =~= FsState::initial(*nx_file, create_time).attrs);
        }
        fs
    }

    fn new_inode(&mut self) -> (inode: u64)
        requires
            old(self).inode_counter < u64::MAX,
        ensures
            inode == old(self).inode_counter,
            final(self).inode_counter == inode + 1,
            final(self).nx_file == old(self).nx_file,
            final(self).entries == old(self).entries,
            final(self).create_time == old(self).create_time,
            final(self).inode_attrs == old(self).inode_attrs,
    {
        let inode = self.inode_counter;
        self.inode_counter += 1;
        inode
    }

    /// Get inodes for a node, generate them if not present.
    pub fn node_inodes(&mut self, node: u32) -> (inodes: NodeInodes)
        requires
            old(self).wf(),
            old(self).nx_file.contains(node),
        ensures
            final(self).wf(),
            final(self).nx_file == old(self).nx_file,
            final(self).create_time == old(self).create_time,
            final(self)@ == old(self)@.register(*old(self).nx_file, node),
            inodes_of(final(self)@.entries, node) == Some(inodes),
            final(self).extends(old(self)),
    {
        proof {
            lemma_register(*self.nx_file, self.create_time, self@, node);
            lemma_entries_bounded(self@.entries);
        }
        match self.entries.inodes(node) {
            Some(inodes) => inodes,
            // Doesn't have inodes yet, generate and insert them
            None => {
                let main_inode = self.new_inode();
                let opt_data_inode = if node_has_children(self.nx_file, node) && !matches!(
                    self.nx_file.value(node).kind(),
                    ValueKind::Empty
                ) {
                    Some(self.new_inode())
                } else {
                    None
                };
                let inodes = NodeInodes { main: main_inode, opt_data: opt_data_inode };
                self.entries.push(Entry { nxnode: node, inodes });
                inodes
            },
        }
    }

    /// Get the attribute records of a node's inodes, make them if not present.
    pub fn node_file_attrs(&mut self, node: u32) -> (attrs: NodeFileAttrs)
        requires
            old(self).wf(),
            old(self).nx_file.contains(node),
        ensures
            final(self).wf(),
            final(self).nx_file == old(self).nx_file,
            final(self).create_time == old(self).create_time,
            final(self)@ == old(self)@.attribute(*old(self).nx_file, old(self).create_time, node),
            attrs == attrs_of(
                final(self)@.attrs,
                inodes_of(final(self)@.entries, node).unwrap(),
            ),
            final(self).extends(old(self)),
    {
        proof {
            lemma_attribute(*self.nx_file, self.create_time, self@, node);
        }
        let inodes = self.node_inodes(node);
        let mut size: Option<u64> = None;
        let main_attr = match self.inode_attrs.get(&inodes.main) {
            Some(attr) => *attr,
            None => {
                let s = node_data(self.nx_file.value(node)).len() as u64;
                size = Some(s);
                let attr = FileAttr::new(
                    inodes.main,
                    s,
                    node_file_type(self.nx_file, node),
                    self.create_time,
                );
                self.inode_attrs.insert(inodes.main, attr);
                attr
            },
        };
        let opt_data_attr = if let Some(inode) = inodes.opt_data {
            let attr = match self.inode_attrs.get(&inode) {
                Some(attr) => *attr,
                None => {
                    let s = match size {
                        Some(s) => s,
                        None => node_data(self.nx_file.value(node)).len() as u64,
                    };
                    let attr = FileAttr::new(inode, s, FileType::RegularFile, self.create_time);
                    self.inode_attrs.insert(inode, attr);
                    attr
                },
            };
            Some(attr)
        } else {
            None
        };
        assert(self@.attrs =~= old(self)@.attribute(
            *old(self).nx_file,
            old(self).create_time,
            node,
        ).attrs);
        NodeFileAttrs { main: main_attr, opt_data: opt_data_attr }
    }

    /// Whether `ino` stands for a node.
    pub fn is_registered(&self, ino: u64) -> (r: bool)
        ensures
            r == self.registered(ino),
    {
        self.entries.nxnode(ino).is_some()
    }

    /// Whether `ino` has an attribute record.
    pub fn is_attributed(&self, ino: u64) -> (r: bool)
        ensures
            r == self.attributed(ino),
    {
        self.inode_attrs.contains_key(&ino)
    }

    /// Looks `name` up under the node of `parent`. Where the name means
    /// nothing there, nothing changes; else the target gets its inodes and
    /// records, and the record of the presentation asked for comes back.
    pub fn lookup(&mut self, parent: u64, name: &str) -> (r: Result<FileAttr, LookupError>)
        requires
            old(self).wf(),
            old(self).registered(parent),
        ensures
            final(self).wf(),
            final(self).nx_file == old(self).nx_file,
            final(self).create_time == old(self).create_time,
            match lookup_target(
                *old(self).nx_file,
                node_of(old(self)@.entries, parent).unwrap(),
                name@,
            ) {
                None => r == Err::<FileAttr, LookupError>(LookupError::NotFound) && final(self)@
                    == old(self)@,
                Some(target) => final(self)@ == old(self)@.attribute(
                    *old(self).nx_file,
                    old(self).create_time,
                    target.0,
                ) && r == Ok::<FileAttr, LookupError>(
                    final(self)@.attrs[presented_inode(
                        inodes_of(final(self)@.entries, target.0).unwrap(),
                        target.1,
                    )],
                ) && node_of(final(self)@.entries, r.unwrap().ino) == Some(target.0) && (target.1
                    == Presentation::Data ==> inodes_of(
                    final(self)@.entries,
                    target.0,
                ).unwrap().opt_data.is_some()),
            },
            r matches Ok(attr) ==> attr == expected_attr(
                *old(self).nx_file,
                old(self).create_time,
                final(self)@.entries,
                attr.ino,
            ),
            final(self).extends(old(self)),
            r matches Ok(attr) ==> final(self).registered(attr.ino)
                && final(self).attributed(attr.ino) && final(self)@.attrs[attr.ino] == attr,
    {
        let node = match self.entries.nxnode(parent) {
            Some(node) => node,
            None => unreached(),
        };
        proof {
            lemma_first_where(self@.entries, holds_inode(parent));
        }
        match resolve_name(self.nx_file, node, name) {
            None => Err(LookupError::NotFound),
            Some((child, presentation)) => {
                proof {
                    lemma_attribute(*self.nx_file, self.create_time, self@, child);
                }
                let attrs = self.node_file_attrs(child);
                proof {
                    lemma_first_where(self@.entries, holds_node(child));
                    let inodes = inodes_of(self@.entries, child).unwrap();
                    let shown = presented_inode(inodes, presentation);
                    assert(inodes.has(shown));
                    assert(self@.attrs.contains_key(shown));
                    assert(self@.attrs[shown] == expected_attr(
                        *self.nx_file,
                        self.create_time,
                        self@.entries,
                        shown,
                    ));
                }
                match presentation {
                    Presentation::Main => Ok(attrs.main),
                    Presentation::Data => match attrs.opt_data {
                        Some(attr) => Ok(attr),
                        None => unreached(),
                    },
                }
            },
        }
    }

    /// The attribute record of an inode that has one.
    pub fn getattr(&self, ino: u64) -> (attr: FileAttr)
        requires
            self.wf(),
            self.attributed(ino),
        ensures
            attr == self@.attrs[ino],
            attr == expected_attr(*self.nx_file, self.create_time, self@.entries, ino),
    {
        match self.inode_attrs.get(&ino) {
            Some(attr) => *attr,
            None => unreached(),
        }
    }

    /// Reads from the content of the node behind a registered inode: the
    /// window asked for, cut down to the content.
    pub fn read(&self, ino: u64, offset: u64, size: u32) -> (data: Vec<u8>)
        requires
            self.wf(),
            self.registered(ino),
        ensures
            data@ == read_window(
                content(self.nx_file.spec_value(node_of(self@.entries, ino).unwrap())),
                offset,
                size,
            ),
    {
        let node = match self.entries.nxnode(ino) {
            Some(node) => node,
            None => unreached(),
        };
        proof {
            lemma_first_where(self@.entries, holds_inode(ino));
        }
        let all = node_data(self.nx_file.value(node));
        let len = all.len();
        let from: usize = if offset < len as u64 {
            offset as usize
        } else {
            len
        };
        let to: usize = if (size as u64) < (len - from) as u64 {
            from + size as usize
        } else {
            len
        };
        slice_to_vec(slice_subrange(all.as_slice(), from, to))
    }

    /// Lists the directory behind a registered inode. A listing is served
    /// whole, at offset 0: each child of the node, in the archive's order,
    /// gets its inodes and records and shows under its name, and once more
    /// as `<name>_data` where it has a data inode. At any other offset
    /// the listing is empty and nothing changes.
    pub fn readdir(&mut self, ino: u64, offset: u64) -> (out: Vec<DirEntry>)
        requires
            old(self).wf(),
            old(self).registered(ino),
        ensures
            final(self).wf(),
            final(self).nx_file == old(self).nx_file,
            final(self).create_time == old(self).create_time,
            offset != 0 ==> out@.len() == 0 && final(self)@ == old(self)@,
            offset == 0 ==> final(self)@ == attribute_all(
                old(self)@,
                *old(self).nx_file,
                old(self).create_time,
                old(self).nx_file.spec_children(node_of(old(self)@.entries, ino).unwrap()),
            ) && entry_views(out@) == listing(
                *old(self).nx_file,
                final(self)@.entries,
                old(self).nx_file.spec_children(node_of(old(self)@.entries, ino).unwrap()),
            ),
            final(self).extends(old(self)),
            forall|k: int|
                0 <= k < out@.len() ==> final(self).registered((#[trigger] out@[k]).ino)
                    && final(self).attributed(out@[k].ino),
    {
        let mut out: Vec<DirEntry> = Vec::new();
        if offset == 0 {
            let node_to_read = match self.entries.nxnode(ino) {
                Some(node) => node,
                None => unreached(),
            };
            proof {
                lemma_first_where(self@.entries, holds_inode(ino));
            }
            let archive = self.nx_file;
            let children = archive.children(node_to_read);
            let ghost start = self@;
            let ghost t = self.create_time;
            let mut i: usize = 0;
            assert(children@.take(0) =~= Seq::<u32>::empty());
            assert(entry_views(out@) =~= Seq::<DirItem>::empty());
            while i < children.len()
                invariant
                    self.wf(),
                    self.nx_file == archive,
                    self.create_time == t,
                    archive.wf(),
                    archive.contains(node_to_read),
                    children@ == archive.spec_children(node_to_read),
                    0 <= i <= children@.len(),
                    self@ == attribute_all(start, *archive, t, children@.take(i as int)),
                    entry_views(out@) == listing(*archive, self@.entries, children@.take(i as int)),
                    forall|k: int|
                        0 <= k < i ==> inodes_of(self@.entries, #[trigger] children@[k]).is_some(),
                    out@.len() <= 2 * i,
                    self.extends(old(self)),
                    forall|k: int|
                        0 <= k < out@.len() ==> self.registered((#[trigger] out@[k]).ino)
                            && self.attributed(out@[k].ino),
                decreases children@.len() - i,
            {
                let child = children[i];
                let ghost before = self@;
                let ghost shown = entry_views(out@);
                proof {
                    assert(children@.take(i + 1).drop_last() == children@.take(i as int));
                    assert(archive.nodes@[node_to_read as int].children@[i as int] == child);
                    lemma_register(*archive, t, before, child);
                    lemma_attribute(*archive, t, before.register(*archive, child), child);
                    assert forall|k: int| 0 <= k < i implies inodes_of(
                        before.entries,
                        #[trigger] children@.take(i as int)[k],
                    ).is_some() by {
                        assert(children@.take(i as int)[k] == children@[k]);
                    }
                    lemma_listing_stable(
                        *archive,
                        before.entries,
                        before.register(*archive, child).entries,
                        children@.take(i as int),
                    );
                }
                let file_type = node_file_type(archive, child);
                let inodes = self.node_inodes(child);
                // Generate the attributes for the node
                let _ = self.node_file_attrs(child);
                assert(self@ == before.attribute(*archive, t, child));
                out.push(
                    DirEntry {
                        ino: inodes.main,
                        offset: out.len() as u64 + 1,
                        kind: file_type,
                        name: String::from_str(archive.name(child)),
                    },
                );
                if let Some(inode) = inodes.opt_data {
                    let mut name = String::from_str(archive.name(child));
                    name.append("_data");
                    proof {
                        reveal_strlit("_data");
                        assert("_data"@ =~= data_suffix());
                    }
                    out.push(
                        DirEntry {
                            ino: inode,
                            offset: out.len() as u64 + 1,
                            kind: FileType::RegularFile,
                            name,
                        },
                    );
                }
                assert(entry_views(out@) =~= shown + child_items(
                    *archive,
                    self@.entries,
                    child,
                    shown.len() as int,
                ));
                i += 1;
            }
            assert(children@.take(i as int) == children@);
        }
        out
    }
}

} // verus!
