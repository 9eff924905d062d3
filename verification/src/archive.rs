//! The archive as the engine sees it: a table of named, typed nodes, each with
//! an ordered list of children. A node is known by its index in the table,
//! which is its identity; the root is node 0.

use crate::search::{first_where, lemma_first_where_prefix};
use vstd::prelude::*;
use vstd::string::*;

verus! {

/// The kind of value a node carries.
#[derive(Clone, Copy, Debug, PartialEq, Eq, Structural)]
pub enum ValueKind {
    Empty,
    Integer,
    Float,
    String,
    Vector,
    Bitmap,
    Audio,
}

/// Bytes before the pixel data of an encoded bitmap: the file header (14) and
/// the info header (108).
pub const BITMAP_DATA_OFFSET: u32 = 122;

/// A decoded bitmap: four bytes per pixel in the order red, green, blue,
/// alpha; pixels from left to right, rows from top to bottom.
#[derive(Clone, Debug, PartialEq, Eq)]
pub struct Bitmap {
    pub width: u16,
    pub height: u16,
    pub pixels: Vec<u8>,
}

impl Bitmap {
    /// The pixel buffer has four bytes per pixel, and the encoded file's size
    /// fits the 32-bit field that holds it.
    pub open spec fn wf(&self) -> bool {
        &&& self.pixels@.len() == 4 * self.width * self.height
        &&& self.pixels@.len() + BITMAP_DATA_OFFSET <= u32::MAX
    }

    /// A bitmap of the given size, if the buffer has four bytes per pixel and
    /// the encoded file's size fits 32 bits.
    pub fn new(width: u16, height: u16, pixels: Vec<u8>) -> (r: Option<Bitmap>)
        ensures
            r.is_some() <==> (pixels@.len() == 4 * width * height && pixels@.len()
                + BITMAP_DATA_OFFSET <= u32::MAX),
            r matches Some(b) ==> b.wf() && b.width == width && b.height == height && b.pixels
                == pixels,
    {
        assert(4 * width * height <= 4 * 65535 * 65535) by (nonlinear_arith)
            requires
                width <= 65535,
                height <= 65535,
        ;
        let want: u64 = 4 * (width as u64) * (height as u64);
        assert(want == 4 * width * height);
        if pixels.len() as u64 == want && want <= (u32::MAX - BITMAP_DATA_OFFSET) as u64 {
            Some(Bitmap { width, height, pixels })
        } else {
            None
        }
    }
}

/// A pixel buffer with the first and third byte of each pixel exchanged:
/// what turns the order blue, green, red, alpha into red, green, blue, alpha,
/// and back. Bytes behind the last whole pixel stay as they are.
pub open spec fn red_blue_swapped(p: Seq<u8>) -> Seq<u8> {
    Seq::new(
        p.len(),
        |i: int|
            if i - i % 4 + 4 > p.len() {
                p[i]
            } else if i % 4 == 0 {
                p[i + 2]
            } else if i % 4 == 2 {
                p[i - 2]
            } else {
                p[i]
            },
    )
}

/// Exchanges red and blue in each pixel of a buffer.
pub fn swap_red_blue(pixels: &Vec<u8>) -> (out: Vec<u8>)
    ensures
        out@ == red_blue_swapped(pixels@),
{
    let n = pixels.len();
    let mut out: Vec<u8> = Vec::with_capacity(n);
    let mut i: usize = 0;
    while i < n
        invariant
            n == pixels@.len(),
            0 <= i <= n,
            out@ == red_blue_swapped(pixels@).take(i as int),
        decreases n - i,
    {
        let within: usize = i % 4;
        let byte = if n - (i - within) < 4 {
            pixels[i]
        } else if within == 0 {
            pixels[i + 2]
        } else if within == 2 {
            pixels[i - 2]
        } else {
            pixels[i]
        };
        out.push(byte);
        i += 1;
        assert(out@ =~= red_blue_swapped(pixels@).take(i as int));
    }
    assert(red_blue_swapped(pixels@).take(n as int) =~= red_blue_swapped(pixels@));
    out
}

/// The value of a node. A float is held as its decimal text, which is all the
/// engine serves of it.
#[derive(Clone, Debug, PartialEq, Eq)]
pub enum NodeValue {
    Empty,
    Integer(i64),
    Float(String),
    String(String),
    Vector(i32, i32),
    Bitmap(Bitmap),
    Audio(Vec<u8>),
}

impl NodeValue {
    pub open spec fn wf(&self) -> bool {
        match self {
            NodeValue::Bitmap(b) => b.wf(),
            _ => true,
        }
    }

    pub open spec fn spec_kind(&self) -> ValueKind {
        match self {
            NodeValue::Empty => ValueKind::Empty,
            NodeValue::Integer(_) => ValueKind::Integer,
            NodeValue::Float(_) => ValueKind::Float,
            NodeValue::String(_) => ValueKind::String,
            NodeValue::Vector(_, _) => ValueKind::Vector,
            NodeValue::Bitmap(_) => ValueKind::Bitmap,
            NodeValue::Audio(_) => ValueKind::Audio,
        }
    }

    #[verifier::when_used_as_spec(spec_kind)]
    pub fn kind(&self) -> (k: ValueKind)
        ensures
            k == self.spec_kind(),
    {
        match self {
            NodeValue::Empty => ValueKind::Empty,
            NodeValue::Integer(_) => ValueKind::Integer,
            NodeValue::Float(_) => ValueKind::Float,
            NodeValue::String(_) => ValueKind::String,
            NodeValue::Vector(_, _) => ValueKind::Vector,
            NodeValue::Bitmap(_) => ValueKind::Bitmap,
            NodeValue::Audio(_) => ValueKind::Audio,
        }
    }
}

/// One node of the archive.
pub struct ArchiveNode {
    pub name: String,
    pub value: NodeValue,
    pub children: Vec<u32>,
}

/// The node table. Node 0 is the root.
pub struct Archive {
    pub nodes: Vec<ArchiveNode>,
}

/// The condition that a node number names a node called `name`.
pub open spec fn named(nodes: Seq<ArchiveNode>, name: Seq<char>) -> spec_fn(u32) -> bool {
    |c: u32| nodes[c as int].name@ == name
}

impl Archive {
    /// The table is not empty, its size fits a node number, every child is a
    /// node of the table other than the root, no node has more children than
    /// a node number counts, and every value is well formed.
    pub open spec fn wf(&self) -> bool {
        &&& 1 <= self.nodes@.len() <= u32::MAX
        &&& forall|n: int, k: int|
            0 <= n < self.nodes@.len() && 0 <= k < self.nodes@[n].children@.len() ==> 0 < (
            #[trigger] self.nodes@[n].children@[k]) < self.nodes@.len()
        &&& forall|n: int|
            0 <= n < self.nodes@.len() ==> (#[trigger] self.nodes@[n]).value.wf()
                && self.nodes@[n].children@.len() <= u32::MAX
    }

    pub open spec fn contains(&self, node: u32) -> bool {
        node < self.nodes@.len()
    }

    pub open spec fn spec_children(&self, node: u32) -> Seq<u32> {
        self.nodes@[node as int].children@
    }

    pub open spec fn spec_name(&self, node: u32) -> Seq<char> {
        self.nodes@[node as int].name@
    }

    pub open spec fn spec_value(&self, node: u32) -> NodeValue {
        self.nodes@[node as int].value
    }

    pub open spec fn spec_has_children(&self, node: u32) -> bool {
        self.spec_children(node).len() > 0
    }

    /// The child of `node` that carries `name`: the first in the node's order.
    pub open spec fn spec_get(&self, node: u32, name: Seq<char>) -> Option<u32> {
        match first_where(self.spec_children(node), named(self.nodes@, name)) {
            Some(k) => Some(self.spec_children(node)[k]),
            None => None,
        }
    }

    /// An archive of one node, the root.
    pub fn new(name: &str, value: NodeValue) -> (a: Archive)
        requires
            value.wf(),
        ensures
            a.wf(),
            a.nodes@.len() == 1,
            a.spec_name(0) == name@,
            a.spec_value(0) == value,
            a.spec_children(0) == Seq::<u32>::empty(),
    {
        let mut nodes: Vec<ArchiveNode> = Vec::new();
        nodes.push(ArchiveNode { name: String::from_str(name), value, children: Vec::new() });
        Archive { nodes }
    }

    /// The number of the root node.
    pub fn root(&self) -> (r: u32)
        ensures
            r == 0,
    {
        0
    }

    pub fn name(&self, node: u32) -> (r: &str)
        requires
            self.contains(node),
        ensures
            r@ == self.spec_name(node),
    {
        self.nodes[node as usize].name.as_str()
    }

    pub fn value(&self, node: u32) -> (r: &NodeValue)
        requires
            self.contains(node),
        ensures
            *r == self.spec_value(node),
    {
        &self.nodes[node as usize].value
    }

    pub fn children(&self, node: u32) -> (r: &Vec<u32>)
        requires
            self.contains(node),
        ensures
            r@ == self.spec_children(node),
    {
        &self.nodes[node as usize].children
    }

    #[verifier::when_used_as_spec(spec_has_children)]
    pub fn has_children(&self, node: u32) -> (r: bool)
        requires
            self.contains(node),
        ensures
            r == self.spec_has_children(node),
    {
        self.nodes[node as usize].children.len() > 0
    }

    /// Looks a child of `node` up by its exact name.
    pub fn get(&self, node: u32, name: &str) -> (r: Option<u32>)
        requires
            self.wf(),
            self.contains(node),
        ensures
            r == self.spec_get(node, name@),
            r matches Some(c) ==> self.contains(c) && c != 0,
    {
        let wanted = String::from_str(name);
        let children = &self.nodes[node as usize].children;
        let mut i: usize = 0;
        while i < children.len()
            invariant
                self.wf(),
                self.contains(node),
                children@ == self.spec_children(node),
                wanted@ == name@,
                0 <= i <= children@.len(),
                first_where(children@.take(i as int), named(self.nodes@, name@)).is_none(),
            decreases children@.len() - i,
        {
            let c = children[i];
            assert(children@.take(i + 1).drop_last() == children@.take(i as int));
            if self.nodes[c as usize].name == wanted {
                proof {
                    lemma_first_where_prefix(children@, i + 1, named(self.nodes@, name@));
                }
                return Some(c);
            }
            i += 1;
        }
        assert(children@.take(i as int) == children@);
        None
    }

    /// Appends a node as the last child of `parent` and returns its number.
    /// Nothing changes, and `None` comes back, where `parent` is no node of the
    /// table, or the table or the parent's list of children is full.
    pub fn add_child(&mut self, parent: u32, name: &str, value: NodeValue) -> (r: Option<u32>)
        requires
            old(self).wf(),
            value.wf(),
        ensures
            final(self).wf(),
            r.is_some() <==> (old(self).contains(parent) && old(self).nodes@.len() < u32::MAX
                && old(self).spec_children(parent).len() < u32::MAX),
            r.is_none() ==> *final(self) == *old(self),
            r matches Some(id) ==> {
                &&& id == old(self).nodes@.len()
                &&& final(self).nodes@.len() == id + 1
                &&& final(self).spec_name(id) == name@
                &&& final(self).spec_value(id) == value
                &&& final(self).spec_children(id) == Seq::<u32>::empty()
                &&& final(self).spec_children(parent) == old(self).spec_children(parent).push(id)
                &&& forall|n: u32|
                    n < id ==> final(self).spec_name(n) == old(self).spec_name(n)
                        && final(self).spec_value(n) == old(self).spec_value(n)
                &&& forall|n: u32|
                    n < id && n != parent ==> final(self).spec_children(n)
                        == old(self).spec_children(n)
            },
    {
        let len = self.nodes.len();
        if parent as usize >= len || len >= u32::MAX as usize {
            return None;
        }
        if self.nodes[parent as usize].children.len() >= u32::MAX as usize {
            return None;
        }
        let id: u32 = len as u32;
        self.nodes[parent as usize].children.push(id);
        self.nodes.push(ArchiveNode { name: String::from_str(name), value, children: Vec::new() });
        Some(id)
    }
}

} // verus!
