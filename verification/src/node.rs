//! Electrical nodes: groups of elements that meet at one junction.
use crate::algebra::{nat_text, push_nat};
use crate::elements::contains_id;
use crate::util::PrettyPrint;
use vstd::prelude::*;
use vstd::string::*;

verus! {

/// A node, or a super-node that several nodes were merged into.
///
/// `members` lists the ids of the elements that have a terminal at the node,
/// in ascending order.
#[derive(Debug)]
pub struct Node {
    /// The number of the node; the first node found has the number 1.
    pub id: usize,
    /// The ids of the elements at the node.
    pub members: Vec<usize>,
}

/// The mathematical value of a [`Node`].
pub struct NodeView {
    pub id: nat,
    pub members: Seq<usize>,
}

impl View for Node {
    type V = NodeView;

    open spec fn view(&self) -> NodeView {
        NodeView { id: self.id as nat, members: self.members@ }
    }
}

/// The values of a list of nodes.
pub open spec fn node_views(nodes: Seq<Node>) -> Seq<NodeView> {
    Seq::new(nodes.len(), |i: int| nodes[i]@)
}

impl Clone for Node {
    fn clone(&self) -> (r: Self)
        ensures
            r@ == self@,
    {
        let members = self.members.clone();
        assert(members@ =~= self.members@);
        Node { id: self.id, members }
    }
}

impl Node {
    /// Whether the element with the given id has a terminal at the node.
    pub fn contains(&self, element: usize) -> (found: bool)
        ensures
            found == self@.members.contains(element),
    {
        contains_id(&self.members, element)
    }

    /// The ids of the elements at the node.
    pub fn member_ids(&self) -> (ids: Vec<usize>)
        ensures
            ids@ == self@.members,
    {
        let ids = self.members.clone();
        assert(ids@ =~= self.members@);
        ids
    }
}

impl PrettyPrint for Node {
    /// The word `Node`, a colon, and the number of the node.
    open spec fn pretty_text(&self) -> Seq<char> {
        "Node: "@ + nat_text(self.id as nat)
    }

    fn pretty_string(&self) -> (s: String) {
        let mut out = String::from_str("Node: ");
        push_nat(&mut out, self.id as u64);
        out
    }
}

} // verus!
