use cst::log::{Log, LoggedOperation};
use cst::node::{Node, NodeState, Operation};

fn s(v: &str) -> String {
    v.to_string()
}

fn sorted_data(node: &Node) -> Vec<String> {
    let mut d = node.data().clone();
    d.sort();
    d
}

/// Rebuilds the data by executing the logged operations on the empty set.
fn replay(log: &Log) -> Vec<String> {
    let mut set: Vec<String> = Vec::new();
    for entry in log.operations() {
        match entry.operation() {
            Operation::Read(_) => {}
            Operation::Insert(v) => {
                if !set.contains(v) {
                    set.push(v.clone());
                }
            }
            Operation::Remove(v) => set.retain(|x| x != v),
        }
    }
    set.sort();
    set
}

#[test]
fn new_node_is_idle_and_empty() {
    let node = Node::new(1);
    assert_eq!(node.id(), 1);
    assert_eq!(node.state(), NodeState::Idle);
    assert_eq!(node.sequence_number(), 0);
    assert!(node.data().is_empty());
    assert!(node.log().operations().is_empty());
}

#[test]
fn demo_scenario() {
    let mut node = Node::new(1);
    assert!(node.process_operation(Operation::Insert(s("Teste"))));
    assert!(node.process_operation(Operation::Insert(s("Teste 2"))));
    assert!(node.process_operation(Operation::Insert(s("Teste 3"))));
    assert!(node.process_operation(Operation::Remove(s("Teste 2"))));
    assert_eq!(sorted_data(&node), vec![s("Teste"), s("Teste 3")]);
    assert_eq!(node.sequence_number(), 4);
    let ops = node.log().operations();
    assert_eq!(ops.len(), 4);
    assert_eq!(ops[3].seqno(), 4);
    assert_eq!(ops[3].operation(), &Operation::Remove(s("Teste 2")));
}

#[test]
fn read_answers_membership_and_is_not_logged() {
    let mut node = Node::new(3);
    assert!(!node.process_operation(Operation::Read(s("a"))));
    node.process_operation(Operation::Insert(s("a")));
    assert!(node.process_operation(Operation::Read(s("a"))));
    assert!(!node.process_operation(Operation::Read(s("b"))));
    assert_eq!(node.sequence_number(), 1);
    assert_eq!(node.log().operations().len(), 1);
}

#[test]
fn insert_twice_is_refused_and_changes_nothing() {
    let mut node = Node::new(1);
    assert!(node.process_operation(Operation::Insert(s("x"))));
    assert!(!node.process_operation(Operation::Insert(s("x"))));
    assert_eq!(node.data(), &vec![s("x")]);
    assert_eq!(node.sequence_number(), 1);
    assert_eq!(node.log().operations().len(), 1);
}

#[test]
fn remove_of_absent_value_is_refused() {
    let mut node = Node::new(1);
    assert!(!node.process_operation(Operation::Remove(s("x"))));
    assert_eq!(node.sequence_number(), 0);
    assert!(node.log().operations().is_empty());
}

#[test]
fn insert_then_remove_restores_data() {
    let mut node = Node::new(1);
    node.process_operation(Operation::Insert(s("keep")));
    let before = sorted_data(&node);
    assert!(node.process_operation(Operation::Insert(s("tmp"))));
    assert!(node.process_operation(Operation::Remove(s("tmp"))));
    assert_eq!(sorted_data(&node), before);
    assert_eq!(node.sequence_number(), 3);
}

#[test]
fn log_numbers_entries_in_order() {
    let mut node = Node::new(1);
    for v in ["a", "b", "a", "c", "b", "z"] {
        node.process_operation(Operation::Insert(s(v)));
        node.process_operation(Operation::Remove(s("c")));
        node.process_operation(Operation::Read(s(v)));
    }
    let ops = node.log().operations();
    assert_eq!(node.sequence_number() as usize, ops.len());
    for (i, entry) in ops.iter().enumerate() {
        assert_eq!(entry.seqno() as usize, i + 1);
        assert!(!matches!(entry.operation(), Operation::Read(_)));
    }
}

#[test]
fn log_rebuilds_data() {
    let mut node = Node::new(9);
    let script = [
        Operation::Insert(s("p")),
        Operation::Insert(s("q")),
        Operation::Remove(s("p")),
        Operation::Insert(s("q")),
        Operation::Remove(s("r")),
        Operation::Insert(s("r")),
        Operation::Read(s("q")),
        Operation::Insert(s("p")),
    ];
    for op in script {
        node.process_operation(op);
        assert_eq!(replay(node.log()), sorted_data(&node));
    }
    assert_eq!(sorted_data(&node), vec![s("p"), s("q"), s("r")]);
}

#[test]
fn accepts_tells_whether_an_operation_changes_data() {
    let mut node = Node::new(1);
    assert!(node.accepts(&Operation::Insert(s("a"))));
    assert!(!node.accepts(&Operation::Remove(s("a"))));
    assert!(!node.accepts(&Operation::Read(s("a"))));
    node.process_operation(Operation::Insert(s("a")));
    assert!(!node.accepts(&Operation::Insert(s("a"))));
    assert!(node.accepts(&Operation::Remove(s("a"))));
}

#[test]
fn empty_string_is_a_value_like_any_other() {
    let mut node = Node::new(1);
    assert!(node.process_operation(Operation::Insert(s(""))));
    assert!(node.process_operation(Operation::Read(s(""))));
    assert!(node.process_operation(Operation::Remove(s(""))));
    assert!(node.data().is_empty());
}

#[test]
fn logged_operation_keeps_its_fields() {
    let entry = LoggedOperation::new(42, Operation::Insert(s("v")));
    assert_eq!(entry.seqno(), 42);
    assert_eq!(entry.operation(), &Operation::Insert(s("v")));
}

#[test]
fn log_appends_in_order() {
    let mut log = Log::new();
    assert!(log.operations().is_empty());
    log.log_operation(7, Operation::Insert(s("a")));
    log.log_operation(3, Operation::Remove(s("a")));
    let ops = log.operations();
    assert_eq!(ops.len(), 2);
    assert_eq!(ops[0].seqno(), 7);
    assert_eq!(ops[0].operation(), &Operation::Insert(s("a")));
    assert_eq!(ops[1].seqno(), 3);
    assert_eq!(ops[1].operation(), &Operation::Remove(s("a")));
}
