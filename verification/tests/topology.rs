use circuit_solver::component::Component;
use circuit_solver::container::Container;
use circuit_solver::elements::Element;
use circuit_solver::node::Node;
use circuit_solver::util::{
    create_basic_container, create_basic_supermesh_container, create_basic_supernode_container,
    create_mna_container, create_mna_container_2, PrettyPrint,
};

fn members(nodes: &Vec<Node>) -> Vec<Vec<usize>> {
    nodes.iter().map(|n| n.member_ids()).collect()
}

fn ids(nodes: &Vec<Node>) -> Vec<usize> {
    nodes.iter().map(|n| n.id).collect()
}

#[test]
fn new_container_is_unbuilt() {
    let c = Container::new();
    assert!(!c.is_built());
    assert!(c.get_elements().is_empty());
    assert!(c.nodes().is_empty());
    assert!(c.super_nodes().is_empty());
}

#[test]
fn elements_are_numbered_as_they_are_added() {
    let mut c = Container::new();
    let mut e = Element::new(Component::Resistor, 5, vec![1], vec![]);
    e.id = 40;
    c.add_element_core(e);
    c.add_element_core(Element::new(Component::Ground, 0, vec![0], vec![]));
    assert_eq!(c.get_elements()[0].id, 0);
    assert_eq!(c.get_elements()[1].id, 1);
    assert_eq!(c.get_elements()[0].value, 5);
    assert_eq!(c.get_elements()[0].positive, vec![1]);
}

#[test]
fn nodes_of_the_worked_example() {
    let mut c = create_mna_container();
    assert!(c.create_nodes().is_ok());
    assert!(c.is_built());
    assert_eq!(members(c.nodes()), vec![vec![2, 5], vec![2, 3, 4], vec![1, 4]]);
    assert_eq!(ids(c.nodes()), vec![1, 2, 3]);
    assert_eq!(c.nodes()[1].pretty_string(), "Node: 2");
    assert!(c.nodes()[1].contains(3));
    assert!(!c.nodes()[1].contains(5));
}

#[test]
fn building_twice_changes_nothing() {
    let mut c = create_mna_container();
    c.create_nodes().unwrap();
    let first = members(c.nodes());
    c.create_nodes().unwrap();
    assert_eq!(members(c.nodes()), first);
    assert_eq!(c.nodes().len(), 3);
    c.create_super_nodes();
    let merged = members(c.super_nodes());
    c.create_super_nodes();
    assert_eq!(members(c.super_nodes()), merged);
}

#[test]
fn ground_junction_is_no_node() {
    let mut c = create_basic_container();
    c.create_nodes().unwrap();
    assert_eq!(members(c.nodes()), vec![vec![2, 3], vec![1, 2]]);
}

#[test]
fn dangling_terminal_is_a_node_of_its_own() {
    let mut c = Container::from(vec![
        Element::new(Component::Ground, 0, vec![1], vec![]),
        Element::new(Component::Resistor, 5, vec![], vec![0]),
    ]);
    c.create_nodes().unwrap();
    assert_eq!(members(c.nodes()), vec![vec![1]]);
}

#[test]
fn unresolved_connection_fails_and_changes_nothing() {
    let mut c = Container::from(vec![
        Element::new(Component::Ground, 0, vec![1], vec![]),
        Element::new(Component::Resistor, 5, vec![0], vec![2]),
        Element::new(Component::Resistor, 5, vec![1], vec![3]),
    ]);
    match c.create_nodes() {
        Err(e) => assert_eq!(e.to_text(), "Known Issue: Unresolved connection: R2: 5 Ω"),
        Ok(()) => panic!("the nodes were built"),
    }
    assert!(!c.is_built());
    assert!(c.nodes().is_empty());
}

#[test]
fn voltage_sources_in_order() {
    assert_eq!(create_mna_container().get_voltage_sources(), vec![4, 5]);
    assert_eq!(create_mna_container_2().get_voltage_sources(), vec![4]);
    assert!(Container::new().get_voltage_sources().is_empty());
}

#[test]
fn super_nodes_merge_across_voltage_sources() {
    let mut c = create_basic_supernode_container();
    c.create_nodes().unwrap();
    assert_eq!(members(c.nodes()), vec![vec![2, 3], vec![1, 2]]);
    c.create_super_nodes();
    assert_eq!(members(c.super_nodes()), vec![vec![1, 2, 3]]);
    assert_eq!(ids(c.super_nodes()), vec![1]);
}

#[test]
fn super_nodes_of_the_worked_example() {
    let mut c = create_mna_container();
    c.create_nodes().unwrap();
    c.create_super_nodes();
    // The source of id 4 joins the second and the third node; the source of
    // id 5 lies between the first node and ground and joins nothing.
    assert_eq!(members(c.super_nodes()), vec![vec![2, 5], vec![1, 2, 3, 4]]);
    assert_eq!(ids(c.super_nodes()), vec![1, 2]);
    assert_eq!(members(c.nodes()), vec![vec![2, 5], vec![2, 3, 4], vec![1, 4]]);
}

#[test]
fn nodes_without_a_joining_source_stay_as_they_are() {
    let mut c = create_basic_supermesh_container();
    c.create_nodes().unwrap();
    c.create_super_nodes();
    assert_eq!(members(c.super_nodes()), members(c.nodes()));
    assert_eq!(members(c.nodes()), vec![vec![2, 3, 4], vec![1, 2]]);
}

#[test]
fn super_nodes_before_nodes_are_empty() {
    let mut c = create_mna_container();
    c.create_super_nodes();
    assert!(c.super_nodes().is_empty());
}

#[test]
fn every_member_of_a_node_is_in_a_super_node() {
    let mut c = create_mna_container();
    c.create_nodes().unwrap();
    c.create_super_nodes();
    for node in c.nodes() {
        assert!(c
            .super_nodes()
            .iter()
            .any(|s| node.members.iter().all(|m| s.contains(*m))));
    }
    for s in c.super_nodes() {
        for m in &s.members {
            assert!(c.nodes().iter().any(|n| n.contains(*m)));
        }
    }
}
