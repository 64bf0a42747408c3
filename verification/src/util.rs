//! Display labels, and the circuits that serve as examples.
use crate::component::Component;
use crate::container::{Container, Topology};
use crate::elements::{Element, ElementView};
use crate::topology::{element_resolved, resolved};
use vstd::prelude::*;

verus! {

/// Types that have a display label.
pub trait PrettyPrint {
    /// The label, as a sequence of characters.
    spec fn pretty_text(&self) -> Seq<char>;

    /// The label.
    fn pretty_string(&self) -> (s: String)
        ensures
            s@ == self.pretty_text(),
    ;
}

/// The value of an element with the given id, class, value and connections.
pub open spec fn part(
    id: nat,
    class: Component,
    value: int,
    positive: Seq<usize>,
    negative: Seq<usize>,
) -> ElementView {
    ElementView { id, class, value, positive, negative }
}

fn insert(container: &mut Container, class: Component, value: i64, positive: Vec<usize>, negative: Vec<usize>)
    requires
        old(container).wf(),
        old(container).topology() == Topology::Unbuilt,
    ensures
        final(container).wf(),
        final(container).topology() == Topology::Unbuilt,
        final(container).circuit() == old(container).circuit().push(
            part(old(container).circuit().len(), class, value as int, positive@, negative@),
        ),
{
    container.add_element_core(Element::new(class, value, positive, negative));
}

/// A voltage source of 10 V that feeds resistors of 5 Ω and 10 Ω in series.
pub open spec fn basic_circuit() -> Seq<ElementView> {
    seq![
        part(0, Component::Ground, 0, seq![1usize, 3], seq![]),
        part(1, Component::VoltageSrc, 10, seq![2usize], seq![0usize, 3]),
        part(2, Component::Resistor, 5, seq![1usize], seq![3usize]),
        part(3, Component::Resistor, 10, seq![2usize], seq![0usize, 1]),
    ]
}

/// The container of [`basic_circuit`], with no nodes built.
pub fn create_basic_container() -> (c: Container)
    ensures
        c.wf(),
        c.topology() == Topology::Unbuilt,
        c.circuit() == basic_circuit(),
{
    let mut c = Container::new();
    insert(&mut c, Component::Ground, 0, vec![1, 3], vec![]);
    insert(&mut c, Component::VoltageSrc, 10, vec![2], vec![0, 3]);
    insert(&mut c, Component::Resistor, 5, vec![1], vec![3]);
    insert(&mut c, Component::Resistor, 10, vec![2], vec![0, 1]);
    assert(c.circuit() =~~= basic_circuit());
    c
}

/// Two resistors to ground that a voltage source of 10 V joins: the source
/// lies between two nodes, which makes them one super-node.
pub open spec fn basic_supernode_circuit() -> Seq<ElementView> {
    seq![
        part(0, Component::Ground, 0, seq![1usize, 3], seq![]),
        part(1, Component::Resistor, 5, seq![2usize], seq![0usize, 3]),
        part(2, Component::VoltageSrc, 10, seq![1usize], seq![3usize]),
        part(3, Component::Resistor, 10, seq![2usize], seq![0usize, 1]),
    ]
}

/// The container of [`basic_supernode_circuit`], with no nodes built.
pub fn create_basic_supernode_container() -> (c: Container)
    ensures
        c.wf(),
        c.topology() == Topology::Unbuilt,
        c.circuit() == basic_supernode_circuit(),
{
    let mut c = Container::new();
    insert(&mut c, Component::Ground, 0, vec![1, 3], vec![]);
    insert(&mut c, Component::Resistor, 5, vec![2], vec![0, 3]);
    insert(&mut c, Component::VoltageSrc, 10, vec![1], vec![3]);
    insert(&mut c, Component::Resistor, 10, vec![2], vec![0, 1]);
    assert(c.circuit() =~~= basic_supernode_circuit());
    c
}

/// A voltage source of 10 V behind a resistor of 5 Ω, which feeds a current
/// source of 2 A and a resistor of 10 Ω in parallel: the current source lies
/// on the branch that the two meshes share.
pub open spec fn basic_supermesh_circuit() -> Seq<ElementView> {
    seq![
        part(0, Component::Ground, 0, seq![1usize, 3, 4], seq![]),
        part(1, Component::VoltageSrc, 10, seq![2usize], seq![0usize, 3, 4]),
        part(2, Component::Resistor, 5, seq![1usize], seq![3usize, 4]),
        part(3, Component::CurrentSrc, 2, seq![2usize, 4], seq![0usize, 1, 4]),
        part(4, Component::Resistor, 10, seq![2usize, 3], seq![0usize, 1, 3]),
    ]
}

/// The container of [`basic_supermesh_circuit`], with no nodes built.
pub fn create_basic_supermesh_container() -> (c: Container)
    ensures
        c.wf(),
        c.topology() == Topology::Unbuilt,
        c.circuit() == basic_supermesh_circuit(),
{
    let mut c = Container::new();
    insert(&mut c, Component::Ground, 0, vec![1, 3, 4], vec![]);
    insert(&mut c, Component::VoltageSrc, 10, vec![2], vec![0, 3, 4]);
    insert(&mut c, Component::Resistor, 5, vec![1], vec![3, 4]);
    insert(&mut c, Component::CurrentSrc, 2, vec![2, 4], vec![0, 1, 4]);
    insert(&mut c, Component::Resistor, 10, vec![2, 3], vec![0, 1, 3]);
    assert(c.circuit() =~~= basic_supermesh_circuit());
    c
}

/// Three resistors and two voltage sources on three nodes.
///
/// The resistor of id 1 lies between the first node and ground, the source of
/// 32 V between the first and the second node, the resistor of id 2 between
/// the second and the third node, the resistor of id 3 between the second node
/// and ground, and the source of 20 V between the third node and ground.
pub open spec fn mna_circuit() -> Seq<ElementView> {
    seq![
        part(0, Component::Ground, 0, seq![1usize, 3, 5], seq![]),
        part(1, Component::Resistor, 2, seq![4usize], seq![0usize, 3, 5]),
        part(2, Component::Resistor, 4, seq![3usize, 4], seq![5usize]),
        part(3, Component::Resistor, 8, seq![2usize, 4], seq![0usize, 1, 5]),
        part(4, Component::VoltageSrc, 32, seq![1usize], seq![2usize, 3]),
        part(5, Component::VoltageSrc, 20, seq![0usize, 1, 3], seq![2usize]),
    ]
}

/// The container of [`mna_circuit`], with no nodes built.
pub fn create_mna_container() -> (c: Container)
    ensures
        c.wf(),
        c.topology() == Topology::Unbuilt,
        c.circuit() == mna_circuit(),
{
    let mut c = Container::new();
    insert(&mut c, Component::Ground, 0, vec![1, 3, 5], vec![]);
    insert(&mut c, Component::Resistor, 2, vec![4], vec![0, 3, 5]);
    insert(&mut c, Component::Resistor, 4, vec![3, 4], vec![5]);
    insert(&mut c, Component::Resistor, 8, vec![2, 4], vec![0, 1, 5]);
    insert(&mut c, Component::VoltageSrc, 32, vec![1], vec![2, 3]);
    insert(&mut c, Component::VoltageSrc, 20, vec![0, 1, 3], vec![2]);
    assert(c.circuit() =~~= mna_circuit());
    c
}

/// A current source of 3 A and a resistor of 10 Ω in parallel on one node,
/// from which a resistor of 5 Ω leads to a voltage source of 12 V.
pub open spec fn mna_circuit_2() -> Seq<ElementView> {
    seq![
        part(0, Component::Ground, 0, seq![1usize, 2, 4], seq![]),
        part(1, Component::CurrentSrc, 3, seq![2usize, 3], seq![0usize, 2, 4]),
        part(2, Component::Resistor, 10, seq![1usize, 3], seq![0usize, 1, 4]),
        part(3, Component::Resistor, 5, seq![1usize, 2], seq![4usize]),
        part(4, Component::VoltageSrc, 12, seq![3usize], seq![0usize, 1, 2]),
    ]
}

/// The container of [`mna_circuit_2`], with no nodes built.
pub fn create_mna_container_2() -> (c: Container)
    ensures
        c.wf(),
        c.topology() == Topology::Unbuilt,
        c.circuit() == mna_circuit_2(),
{
    let mut c = Container::new();
    insert(&mut c, Component::Ground, 0, vec![1, 2, 4], vec![]);
    insert(&mut c, Component::CurrentSrc, 3, vec![2, 3], vec![0, 2, 4]);
    insert(&mut c, Component::Resistor, 10, vec![1, 3], vec![0, 1, 4]);
    insert(&mut c, Component::Resistor, 5, vec![1, 2], vec![4]);
    insert(&mut c, Component::VoltageSrc, 12, vec![3], vec![0, 1, 2]);
    assert(c.circuit() =~~= mna_circuit_2());
    c
}

/// In every example circuit, every id that is listed at a terminal is the id
/// of an element of the circuit.
pub proof fn lemma_examples_resolved()
    ensures
        resolved(basic_circuit()),
        resolved(basic_supernode_circuit()),
        resolved(basic_supermesh_circuit()),
        resolved(mna_circuit()),
        resolved(mna_circuit_2()),
{
    assert(resolved(basic_circuit())) by {
        let c = basic_circuit();
        assert(c.len() == 4);
        assert(element_resolved(c, c[0]));
        assert(element_resolved(c, c[1]));
        assert(element_resolved(c, c[2]));
        assert(element_resolved(c, c[3]));
    }
    assert(resolved(basic_supernode_circuit())) by {
        let c = basic_supernode_circuit();
        assert(c.len() == 4);
        assert(element_resolved(c, c[0]));
        assert(element_resolved(c, c[1]));
        assert(element_resolved(c, c[2]));
        assert(element_resolved(c, c[3]));
    }
    assert(resolved(basic_supermesh_circuit())) by {
        let c = basic_supermesh_circuit();
        assert(c.len() == 5);
        assert(element_resolved(c, c[0]));
        assert(element_resolved(c, c[1]));
        assert(element_resolved(c, c[2]));
        assert(element_resolved(c, c[3]));
        assert(element_resolved(c, c[4]));
    }
    assert(resolved(mna_circuit())) by {
        let c = mna_circuit();
        assert(c.len() == 6);
        assert(element_resolved(c, c[0]));
        assert(element_resolved(c, c[1]));
        assert(element_resolved(c, c[2]));
        assert(element_resolved(c, c[3]));
        assert(element_resolved(c, c[4]));
        assert(element_resolved(c, c[5]));
    }
    assert(resolved(mna_circuit_2())) by {
        let c = mna_circuit_2();
        assert(c.len() == 5);
        assert(element_resolved(c, c[0]));
        assert(element_resolved(c, c[1]));
        assert(element_resolved(c, c[2]));
        assert(element_resolved(c, c[3]));
        assert(element_resolved(c, c[4]));
    }
}

} // verus!
