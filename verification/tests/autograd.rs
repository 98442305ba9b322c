use rustgrad::autograd::{ComputationGraph, NodeId, Operation};
use rustgrad::tensor::Tensor;
use rustgrad::RustGradError;

#[test]
fn creates_sequential_node_ids() {
    let mut graph = ComputationGraph::new();
    let first = graph.add_leaf(Tensor::scalar(1.0).expect("valid scalar"), true);
    let second = graph.add_leaf(Tensor::scalar(2.0).expect("valid scalar"), false);

    assert_eq!(first.index(), 0);
    assert_eq!(second.index(), 1);
    assert_eq!(graph.len(), 2);
    assert!(!graph.is_empty());
}

#[test]
fn records_operation_node_metadata() {
    let mut graph = ComputationGraph::new();
    let left = graph.add_leaf(Tensor::scalar(1.0).expect("valid scalar"), true);
    let right = graph.add_leaf(Tensor::scalar(2.0).expect("valid scalar"), true);
    let value = Tensor::scalar(3.0).expect("valid scalar");

    let output = graph
        .add_operation(Operation::Add, vec![left, right], value, true)
        .expect("parents should exist");
    let node = graph.node(output).expect("output node should exist");

    assert_eq!(node.id(), output);
    assert_eq!(node.parents(), &[left, right]);
    assert_eq!(node.operation_kind(), &Operation::Add);
    assert!(node.requires_grad());
    assert_eq!(node.value().data(), &[3.0]);
}

#[test]
fn rejects_operation_with_missing_parent() {
    let mut graph = ComputationGraph::new();
    let value = Tensor::scalar(1.0).expect("valid scalar");

    assert_eq!(
        graph
            .add_operation(Operation::Mul, vec![NodeId::new(9)], value, true)
            .expect_err("parent should not exist"),
        RustGradError::InvalidArgument {
            name: "parents",
            reason: "node 9 does not exist".to_string(),
        }
    );
}

#[test]
fn stores_and_clears_gradients() {
    let mut graph = ComputationGraph::new();
    let node_id = graph.add_leaf(Tensor::scalar(2.0).expect("valid scalar"), true);
    let grad = Tensor::scalar(1.0).expect("valid scalar");

    graph
        .node_mut(node_id)
        .expect("node should exist")
        .set_grad(grad);
    assert_eq!(
        graph
            .node(node_id)
            .and_then(|node| node.grad())
            .map(Tensor::data),
        Some(&[1.0][..])
    );

    graph.clear_gradients();

    assert!(graph
        .node(node_id)
        .expect("node should exist")
        .grad()
        .is_none());
}

#[test]
fn operation_name_supports_builtin_and_custom_ops() {
    assert_eq!(Operation::MatMul.name(), "matmul");
    assert_eq!(Operation::Custom("dropout".to_string()).name(), "dropout");
}

#[test]
fn returns_dependency_first_topological_order() {
    let mut graph = ComputationGraph::new();
    let left = graph.add_leaf(Tensor::scalar(1.0).expect("valid scalar"), true);
    let right = graph.add_leaf(Tensor::scalar(2.0).expect("valid scalar"), true);
    let hidden = graph
        .add_operation(
            Operation::Custom("identity".to_string()),
            vec![left],
            Tensor::scalar(1.0).expect("valid scalar"),
            true,
        )
        .expect("parent should exist");
    let output = graph
        .add_operation(
            Operation::Custom("join".to_string()),
            vec![hidden, right],
            Tensor::scalar(3.0).expect("valid scalar"),
            true,
        )
        .expect("parents should exist");

    let order = graph
        .topological_order(output)
        .expect("topological order should exist");

    assert_eq!(order, vec![left, hidden, right, output]);
}

#[test]
fn topological_order_visits_shared_parent_once() {
    let mut graph = ComputationGraph::new();
    let shared = graph.add_leaf(Tensor::scalar(2.0).expect("valid scalar"), true);
    let output = graph
        .add_operation(
            Operation::Custom("double-use".to_string()),
            vec![shared, shared],
            Tensor::scalar(4.0).expect("valid scalar"),
            true,
        )
        .expect("parents should exist");

    let order = graph
        .topological_order(output)
        .expect("topological order should exist");

    assert_eq!(order, vec![shared, output]);
}

#[test]
fn rejects_topological_order_for_missing_output() {
    let graph: ComputationGraph<Tensor<f64>> = ComputationGraph::new();

    assert_eq!(
        graph
            .topological_order(NodeId::new(1))
            .expect_err("output should be missing"),
        RustGradError::InvalidArgument {
            name: "node",
            reason: "node 1 does not exist".to_string(),
        }
    );
}

#[test]
fn topological_order_skips_unrelated_nodes() {
    let mut graph = ComputationGraph::new();
    let a = graph.add_leaf(1u32, true);
    let unrelated = graph.add_leaf(2u32, true);
    let b = graph
        .add_operation(Operation::Relu, vec![a], 3u32, true)
        .expect("parent exists");
    let c = graph
        .add_operation(Operation::Add, vec![b, a], 4u32, true)
        .expect("parents exist");

    let order = graph.topological_order(c).expect("order exists");

    assert_eq!(order, vec![a, b, c]);
    assert!(!order.contains(&unrelated));
    assert_eq!(graph.topological_order(a).expect("leaf order"), vec![a]);
}

#[test]
fn rejects_missing_dependency_reached_through_replaced_node() {
    let mut graph = ComputationGraph::new();
    let a = graph.add_leaf(1u32, true);
    let b = graph
        .add_operation(Operation::Relu, vec![a], 2u32, true)
        .expect("parent exists");
    *graph.node_mut(a).expect("node exists") = rustgrad::autograd::GraphNode::operation(
        a,
        1u32,
        vec![NodeId::new(7)],
        Operation::Relu,
        true,
    );

    assert_eq!(
        graph.topological_order(b).expect_err("dependency is missing"),
        RustGradError::InvalidArgument {
            name: "node",
            reason: "node 7 does not exist".to_string(),
        }
    );
}

#[test]
fn topological_order_terminates_on_cycles() {
    let mut graph = ComputationGraph::new();
    let a = graph.add_leaf(1u32, true);
    let b = graph
        .add_operation(Operation::Relu, vec![a], 2u32, true)
        .expect("parent exists");
    *graph.node_mut(a).expect("node exists") =
        rustgrad::autograd::GraphNode::operation(a, 1u32, vec![b], Operation::Relu, true);

    let order = graph.topological_order(b).expect("order exists");

    assert_eq!(order, vec![a, b]);
}

#[test]
fn parent_lookups_check_arity_and_existence() {
    let mut graph = ComputationGraph::new();
    let a = graph.add_leaf(10u32, true);
    let b = graph.add_leaf(20u32, true);

    let (left, left_value, right, right_value) = graph
        .binary_parent_values(&[a, b], "add")
        .expect("both parents exist");
    assert_eq!((left, *left_value, right, *right_value), (a, 10, b, 20));

    assert_eq!(
        graph
            .binary_parent_values(&[a], "mul")
            .expect_err("one parent is too few"),
        RustGradError::InvalidArgument {
            name: "parents",
            reason: "mul expects exactly 2 parents, got 1".to_string(),
        }
    );
    assert_eq!(
        graph
            .binary_parent_values(&[a, NodeId::new(5)], "sub")
            .expect_err("right parent is missing"),
        RustGradError::InvalidArgument {
            name: "parents",
            reason: "node 5 does not exist".to_string(),
        }
    );
    assert_eq!(
        graph
            .unary_parent_value(&[a, b], "relu")
            .expect_err("two parents are too many"),
        RustGradError::InvalidArgument {
            name: "parents",
            reason: "relu expects exactly 1 parent, got 2".to_string(),
        }
    );
    let (parent, value) = graph.unary_parent_value(&[b], "tanh").expect("parent exists");
    assert_eq!((parent, *value), (b, 20));
}

#[test]
fn graph_node_gradient_accessors() {
    let mut node = rustgrad::autograd::GraphNode::leaf(NodeId::new(0), 5u32, true);
    assert!(node.grad().is_none());
    node.set_grad(7);
    assert_eq!(node.grad(), Some(&7));
    assert_eq!(node.take_grad(), Some(7));
    assert!(node.grad().is_none());
    node.set_grad(8);
    node.clear_grad();
    assert!(node.grad().is_none());
    assert_eq!(node.operation_kind().name(), "leaf");
    assert!(node.parents().is_empty());
}

#[test]
fn node_ids_compare_by_index() {
    assert_eq!(NodeId::new(4), NodeId::new(4));
    assert_ne!(NodeId::new(4), NodeId::new(5));
    assert!(NodeId::new(1) < NodeId::new(2));
    assert!(!(NodeId::new(2) < NodeId::new(1)));
    assert!(NodeId::new(3) >= NodeId::new(3));
    assert_eq!(NodeId::new(7).cmp(&NodeId::new(2)), std::cmp::Ordering::Greater);
}
