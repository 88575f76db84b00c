//! Lists of a host and its peers, kept in order: the entries of a list are held in a
//! vector, and a node names the positions of its neighbours.
use vstd::prelude::*;

verus! {

/// The links of an entry of a list: the positions of the entries after and before it.
#[derive(Debug, Clone, Copy, PartialEq, Eq, Structural)]
pub struct ENetListNode {
    pub next: Option<usize>,
    pub previous: Option<usize>,
}

impl ENetListNode {
    /// A node linked to nothing.
    pub fn zeroed() -> (n: Self)
        ensures
            n.next is None,
            n.previous is None,
    {
        ENetListNode { next: None, previous: None }
    }
}

/// A list of entries, in order.
pub struct ENetList<T> {
    pub items: Vec<T>,
}

impl<T> ENetList<T> {
    /// An empty list.
    pub fn new() -> (l: Self)
        ensures
            l.items@.len() == 0,
    {
        ENetList { items: Vec::new() }
    }
}

/// Empty `list`.
pub fn enet_list_clear<T>(list: &mut ENetList<T>)
    ensures
        final(list).items@.len() == 0,
{
    list.items = Vec::new();
}

} // verus!
