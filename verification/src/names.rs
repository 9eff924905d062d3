//! What a name means under a parent node.

use crate::archive::{Archive, ValueKind};
use crate::registry::NodeInodes;
use crate::state::{needs_data_inode, node_has_children};
use vstd::prelude::*;
use vstd::string::*;

verus! {

/// The suffix by which a name asks for a node's data file.
pub open spec fn data_suffix() -> Seq<char> {
    seq!['_', 'd', 'a', 't', 'a']
}

/// `name` without the data suffix, where it ends with it.
pub open spec fn strip_data_suffix(name: Seq<char>) -> Option<Seq<char>> {
    if name.len() >= 5 && name.subrange(name.len() - 5, name.len() as int) == data_suffix() {
        Some(name.subrange(0, name.len() - 5))
    } else {
        None
    }
}

/// Which presentation of a node a name asks for.
#[derive(Clone, Copy, Debug, PartialEq, Eq, Structural)]
pub enum Presentation {
    /// The node's directory or file.
    Main,
    /// The node's data file.
    Data,
}

/// Why a lookup gave nothing.
#[derive(Clone, Copy, Debug, PartialEq, Eq, Structural)]
pub enum LookupError {
    /// The parent has no entry of that name.
    NotFound,
}

/// What a name means under a parent: the child of exactly that name; else,
/// where the name ends with the data suffix, the data file of the child named
/// by the rest, if that child has one; else nothing.
pub open spec fn lookup_target(a: Archive, parent: u32, name: Seq<char>) -> Option<
    (u32, Presentation),
> {
    match a.spec_get(parent, name) {
        Some(child) => Some((child, Presentation::Main)),
        None => match strip_data_suffix(name) {
            Some(base) => match a.spec_get(parent, base) {
                Some(child) => if needs_data_inode(a, child) {
                    Some((child, Presentation::Data))
                } else {
                    None
                },
                None => None,
            },
            None => None,
        },
    }
}

/// The inode by which a presentation of a node shows.
pub open spec fn presented_inode(inodes: NodeInodes, presentation: Presentation) -> u64 {
    match presentation {
        Presentation::Main => inodes.main,
        Presentation::Data => inodes.opt_data.unwrap(),
    }
}

/// Splits the data suffix off a name that ends with it.
pub fn without_data_suffix(name: &str) -> (r: Option<String>)
    ensures
        match r {
            Some(base) => strip_data_suffix(name@) == Some(base@),
            None => strip_data_suffix(name@).is_none(),
        },
{
    let n = name.unicode_len();
    if n < 5 {
        return None;
    }
    let tail = String::from_str(name.substring_char(n - 5, n));
    let suffix = String::from_str("_data");
    proof {
        reveal_strlit("_data");
        assert("_data"@ =~= data_suffix());
    }
    if tail == suffix {
        Some(String::from_str(name.substring_char(0, n - 5)))
    } else {
        None
    }
}

/// Finds what a name means under a parent.
pub fn resolve_name(a: &Archive, parent: u32, name: &str) -> (r: Option<(u32, Presentation)>)
    requires
        a.wf(),
        a.contains(parent),
    ensures
        r == lookup_target(*a, parent, name@),
        r matches Some(target) ==> a.contains(target.0) && target.0 != 0,
{
    match a.get(parent, name) {
        Some(child) => Some((child, Presentation::Main)),
        None => {
            // See if the name ends with _data, in which case it's a data request
            match without_data_suffix(name) {
                Some(base) => match a.get(parent, base.as_str()) {
                    Some(child) => {
                        if node_has_children(a, child) && !matches!(
                            a.value(child).kind(),
                            ValueKind::Empty
                        ) {
                            Some((child, Presentation::Data))
                        } else {
                            None
                        }
                    },
                    None => None,
                },
                None => None,
            }
        },
    }
}

} // verus!
