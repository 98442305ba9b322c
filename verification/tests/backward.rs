use rustgrad::autograd::{gradient_rule, ComputationGraph, GradientRule, GraphNode, NodeId, Operation};
use rustgrad::tensor::Tensor;
use rustgrad::RustGradError;

type Value = Tensor<f64>;
type Graph = ComputationGraph<Value>;

fn ones_like(value: &Value) -> Result<Value, RustGradError> {
    Tensor::full(value.dims().to_vec(), 1.0)
}

/// Elementwise combination; a one-value operand is broadcast.
fn zip(left: &Value, right: &Value, f: impl Fn(f64, f64) -> f64) -> Result<Value, RustGradError> {
    let (dims, data) = if left.len() == right.len() {
        let data = left.data().iter().zip(right.data()).map(|(&a, &b)| f(a, b)).collect();
        (left.dims().to_vec(), data)
    } else if left.len() == 1 {
        let a = left.data()[0];
        (right.dims().to_vec(), right.data().iter().map(|&b| f(a, b)).collect())
    } else if right.len() == 1 {
        let b = right.data()[0];
        (left.dims().to_vec(), left.data().iter().map(|&a| f(a, b)).collect())
    } else {
        return Err(RustGradError::ShapeMismatch {
            op: "zip",
            left: left.dims().to_vec(),
            right: right.dims().to_vec(),
        });
    };
    Tensor::from_vec(dims, data)
}

fn fit(parent: &Value, grad: Value) -> Result<Value, RustGradError> {
    if parent.dims() == grad.dims() {
        Ok(grad)
    } else if parent.len() == 1 {
        Tensor::scalar(grad.data().iter().sum())
    } else {
        Err(RustGradError::ShapeMismatch {
            op: "gradient",
            left: parent.dims().to_vec(),
            right: grad.dims().to_vec(),
        })
    }
}

fn rules(graph: &Graph, id: NodeId, up: &Value) -> Result<Vec<(NodeId, Value)>, RustGradError> {
    let node = graph.node(id).expect("node exists");
    match gradient_rule(node.operation_kind(), up.dims())? {
        GradientRule::Leaf => Ok(Vec::new()),
        GradientRule::Add => {
            let (l, lv, r, rv) = graph.binary_parent_values(node.parents(), "add")?;
            Ok(vec![(l, fit(lv, up.clone())?), (r, fit(rv, up.clone())?)])
        }
        GradientRule::Sub => {
            let (l, lv, r, rv) = graph.binary_parent_values(node.parents(), "sub")?;
            let negative = zip(up, &Tensor::scalar(-1.0)?, |a, b| a * b)?;
            Ok(vec![(l, fit(lv, up.clone())?), (r, fit(rv, negative)?)])
        }
        GradientRule::Mul => {
            let (l, lv, r, rv) = graph.binary_parent_values(node.parents(), "mul")?;
            let left_grad = zip(up, rv, |a, b| a * b)?;
            let right_grad = zip(up, lv, |a, b| a * b)?;
            Ok(vec![(l, fit(lv, left_grad)?), (r, fit(rv, right_grad)?)])
        }
        GradientRule::Div => {
            let (l, lv, r, rv) = graph.binary_parent_values(node.parents(), "div")?;
            let left_grad = zip(up, rv, |a, b| a / b)?;
            let ratio = zip(lv, &zip(rv, rv, |a, b| a * b)?, |a, b| a / b)?;
            let right_grad = zip(up, &ratio, |a, b| -(a * b))?;
            Ok(vec![(l, fit(lv, left_grad)?), (r, fit(rv, right_grad)?)])
        }
        other => panic!("these tests give no gradient for {:?}", other),
    }
}

fn sum(a: &Value, b: &Value) -> Result<Value, RustGradError> {
    zip(a, b, |x, y| x + y)
}

fn run_backward(graph: &mut Graph, output: NodeId) -> Result<(), RustGradError> {
    graph.backward(output, ones_like, rules, sum)
}

fn grad(graph: &Graph, id: NodeId) -> Option<&[f64]> {
    graph.node(id).and_then(|node| node.grad()).map(Tensor::data)
}

fn scalar(value: f64) -> Value {
    Tensor::scalar(value).expect("valid scalar")
}

fn vector(values: Vec<f64>) -> Value {
    Tensor::vector(values).expect("valid vector")
}

#[test]
fn backward_seeds_leaf_output_gradient_with_ones() {
    let mut graph = ComputationGraph::new();
    let output = graph.add_leaf(
        Tensor::matrix(1, 3, vec![2.0, 4.0, 6.0]).expect("valid matrix"),
        true,
    );

    run_backward(&mut graph, output).expect("leaf backward should succeed");

    assert_eq!(grad(&graph, output), Some(&[1.0, 1.0, 1.0][..]));
}

#[test]
fn backward_clears_existing_gradients_before_seeding_output() {
    let mut graph = ComputationGraph::new();
    let output = graph.add_leaf(scalar(3.0), true);
    graph
        .node_mut(output)
        .expect("node should exist")
        .set_grad(scalar(99.0));

    run_backward(&mut graph, output).expect("leaf backward should succeed");

    assert_eq!(grad(&graph, output), Some(&[1.0][..]));
}

#[test]
fn backward_reports_unsupported_operation_for_missing_gradient_rule() {
    let mut graph = ComputationGraph::new();
    let input = graph.add_leaf(
        Tensor::matrix(2, 1, vec![1.0, 2.0]).expect("valid matrix"),
        true,
    );
    let output = graph
        .add_operation(
            Operation::Custom("unsupported-op".to_string()),
            vec![input],
            Tensor::matrix(2, 1, vec![1.0, 2.0]).expect("valid matrix"),
            true,
        )
        .expect("parent should exist");

    assert_eq!(
        run_backward(&mut graph, output).expect_err("custom unsupported operation should fail"),
        RustGradError::UnsupportedOperation {
            op: "unsupported-op".to_string(),
            reason: "gradient rule is not implemented yet for upstream shape [2, 1]".to_string(),
        }
    );
}

#[test]
fn backward_computes_add_gradients_for_scalars() {
    let mut graph = ComputationGraph::new();
    let left = graph.add_leaf(scalar(2.0), true);
    let right = graph.add_leaf(scalar(3.0), true);
    let output = graph
        .add_operation(Operation::Add, vec![left, right], scalar(5.0), true)
        .expect("parents should exist");

    run_backward(&mut graph, output).expect("add backward should succeed");

    assert_eq!(grad(&graph, left), Some(&[1.0][..]));
    assert_eq!(grad(&graph, right), Some(&[1.0][..]));
}

#[test]
fn backward_computes_sub_gradients_for_scalars() {
    let mut graph = ComputationGraph::new();
    let left = graph.add_leaf(scalar(7.0), true);
    let right = graph.add_leaf(scalar(4.0), true);
    let output = graph
        .add_operation(Operation::Sub, vec![left, right], scalar(3.0), true)
        .expect("parents should exist");

    run_backward(&mut graph, output).expect("sub backward should succeed");

    assert_eq!(grad(&graph, left), Some(&[1.0][..]));
    assert_eq!(grad(&graph, right), Some(&[-1.0][..]));
}

#[test]
fn backward_computes_mul_gradients_for_scalars() {
    let mut graph = ComputationGraph::new();
    let left = graph.add_leaf(scalar(3.0), true);
    let right = graph.add_leaf(scalar(5.0), true);
    let output = graph
        .add_operation(Operation::Mul, vec![left, right], scalar(15.0), true)
        .expect("parents should exist");

    run_backward(&mut graph, output).expect("mul backward should succeed");

    assert_eq!(grad(&graph, left), Some(&[5.0][..]));
    assert_eq!(grad(&graph, right), Some(&[3.0][..]));
}

#[test]
fn backward_computes_div_gradients_for_scalars() {
    let mut graph = ComputationGraph::new();
    let left = graph.add_leaf(scalar(8.0), true);
    let right = graph.add_leaf(scalar(2.0), true);
    let output = graph
        .add_operation(Operation::Div, vec![left, right], scalar(4.0), true)
        .expect("parents should exist");

    run_backward(&mut graph, output).expect("div backward should succeed");

    assert_eq!(grad(&graph, left), Some(&[0.5][..]));
    assert_eq!(grad(&graph, right), Some(&[-2.0][..]));
}

#[test]
fn backward_computes_elementwise_vector_multiply_gradients() {
    let mut graph = ComputationGraph::new();
    let left = graph.add_leaf(vector(vec![2.0, 3.0]), true);
    let right = graph.add_leaf(vector(vec![5.0, 7.0]), true);
    let output = graph
        .add_operation(Operation::Mul, vec![left, right], vector(vec![10.0, 21.0]), true)
        .expect("parents should exist");

    run_backward(&mut graph, output).expect("mul backward should succeed");

    assert_eq!(grad(&graph, left), Some(&[5.0, 7.0][..]));
    assert_eq!(grad(&graph, right), Some(&[2.0, 3.0][..]));
}

#[test]
fn backward_reduces_broadcast_gradient_back_to_scalar_parent() {
    let mut graph = ComputationGraph::new();
    let scalar_node = graph.add_leaf(scalar(2.0), true);
    let vector_node = graph.add_leaf(vector(vec![3.0, 4.0, 5.0]), true);
    let output = graph
        .add_operation(
            Operation::Mul,
            vec![scalar_node, vector_node],
            vector(vec![6.0, 8.0, 10.0]),
            true,
        )
        .expect("parents should exist");

    run_backward(&mut graph, output).expect("mul backward should succeed");

    assert_eq!(grad(&graph, scalar_node), Some(&[12.0][..]));
    assert_eq!(grad(&graph, vector_node), Some(&[2.0, 2.0, 2.0][..]));
}

#[test]
fn backward_accumulates_gradients_for_repeated_parent() {
    let mut graph = ComputationGraph::new();
    let value = graph.add_leaf(scalar(2.0), true);
    let output = graph
        .add_operation(Operation::Add, vec![value, value], scalar(4.0), true)
        .expect("parents should exist");

    run_backward(&mut graph, output).expect("add backward should succeed");

    assert_eq!(grad(&graph, value), Some(&[2.0][..]));
}

#[test]
fn backward_matches_hand_calculated_gradient_for_z_equals_x_times_y_plus_x() {
    let mut graph = ComputationGraph::new();
    let x = graph.add_leaf(scalar(3.0), true);
    let y = graph.add_leaf(scalar(4.0), true);
    let product = graph
        .add_operation(Operation::Mul, vec![x, y], scalar(12.0), true)
        .expect("parents should exist");
    let z = graph
        .add_operation(Operation::Add, vec![product, x], scalar(15.0), true)
        .expect("parents should exist");

    run_backward(&mut graph, z).expect("chained backward should succeed");

    assert_eq!(grad(&graph, x), Some(&[5.0][..]));
    assert_eq!(grad(&graph, y), Some(&[3.0][..]));
}

#[test]
fn backward_skips_leaf_that_does_not_require_grad() {
    let mut graph = ComputationGraph::new();
    let trainable = graph.add_leaf(scalar(2.0), true);
    let constant = graph.add_leaf(scalar(3.0), false);
    let output = graph
        .add_operation(Operation::Mul, vec![trainable, constant], scalar(6.0), true)
        .expect("parents should exist");

    run_backward(&mut graph, output).expect("mul backward should succeed");

    assert_eq!(grad(&graph, trainable), Some(&[3.0][..]));
    assert!(graph
        .node(constant)
        .expect("constant should exist")
        .grad()
        .is_none());
}

#[test]
fn backward_computes_vector_add_and_sub_gradients() {
    let mut graph = ComputationGraph::new();
    let left = graph.add_leaf(vector(vec![1.0, 2.0]), true);
    let right = graph.add_leaf(vector(vec![3.0, 5.0]), true);
    let sum_node = graph
        .add_operation(Operation::Add, vec![left, right], vector(vec![4.0, 7.0]), true)
        .expect("parents should exist");
    let output = graph
        .add_operation(Operation::Sub, vec![sum_node, right], vector(vec![1.0, 2.0]), true)
        .expect("parents should exist");

    run_backward(&mut graph, output).expect("chained backward should succeed");

    assert_eq!(grad(&graph, left), Some(&[1.0, 1.0][..]));
    assert_eq!(grad(&graph, right), Some(&[0.0, 0.0][..]));
}

#[test]
fn backward_computes_elementwise_vector_division_gradients() {
    let mut graph = ComputationGraph::new();
    let numerator = graph.add_leaf(vector(vec![8.0, 9.0]), true);
    let denominator = graph.add_leaf(vector(vec![2.0, 3.0]), true);
    let output = graph
        .add_operation(
            Operation::Div,
            vec![numerator, denominator],
            vector(vec![4.0, 3.0]),
            true,
        )
        .expect("parents should exist");

    run_backward(&mut graph, output).expect("div backward should succeed");

    assert_eq!(grad(&graph, numerator), Some(&[0.5, 1.0 / 3.0][..]));
    assert_eq!(grad(&graph, denominator), Some(&[-2.0, -1.0][..]));
}

#[test]
fn backward_accumulates_gradients_from_multiple_paths() {
    let mut graph = ComputationGraph::new();
    let x = graph.add_leaf(scalar(2.0), true);
    let y = graph.add_leaf(scalar(5.0), true);
    let product = graph
        .add_operation(Operation::Mul, vec![x, y], scalar(10.0), true)
        .expect("parents should exist");
    let output = graph
        .add_operation(Operation::Add, vec![product, y], scalar(15.0), true)
        .expect("parents should exist");

    run_backward(&mut graph, output).expect("chained backward should succeed");

    assert_eq!(grad(&graph, x), Some(&[5.0][..]));
    assert_eq!(grad(&graph, y), Some(&[3.0][..]));
}

#[test]
fn backward_reports_missing_output_and_leaves_graph_alone() {
    let mut graph: Graph = ComputationGraph::new();
    let leaf = graph.add_leaf(scalar(1.0), true);
    graph.node_mut(leaf).expect("leaf").set_grad(scalar(4.0));

    let error = run_backward(&mut graph, NodeId::new(3)).expect_err("missing output");
    assert_eq!(error.to_string(), "invalid argument `node`: node 3 does not exist");
    assert_eq!(grad(&graph, leaf), Some(&[4.0][..]));
}

#[test]
fn backward_clears_gradients_of_nodes_outside_the_output_dependencies() {
    let mut graph = ComputationGraph::new();
    let a = graph.add_leaf(scalar(1.0), true);
    let b = graph.add_leaf(scalar(2.0), true);
    graph.node_mut(b).expect("b").set_grad(scalar(7.0));

    run_backward(&mut graph, a).expect("leaf backward");

    assert_eq!(grad(&graph, a), Some(&[1.0][..]));
    assert_eq!(grad(&graph, b), None);
}

#[test]
fn backward_seeds_output_even_when_it_does_not_require_grad() {
    let mut graph = ComputationGraph::new();
    let x = graph.add_leaf(scalar(2.0), true);
    let output = graph
        .add_operation(Operation::Add, vec![x, x], scalar(4.0), false)
        .expect("parents should exist");

    run_backward(&mut graph, output).expect("backward");

    assert_eq!(grad(&graph, output), Some(&[1.0][..]));
    assert_eq!(grad(&graph, x), None);
}

#[test]
fn backward_stops_at_a_failing_rule() {
    let mut graph = ComputationGraph::new();
    let x = graph.add_leaf(scalar(2.0), true);
    let output = graph
        .add_operation(Operation::Add, vec![x, x], scalar(4.0), true)
        .expect("parents should exist");

    let error = graph
        .backward(output, ones_like, rules, |_: &Value, _: &Value| {
            Err(RustGradError::EmptyTensor)
        })
        .expect_err("adding fails");
    assert_eq!(error, RustGradError::EmptyTensor);
}

#[test]
fn node_gradients_accumulate_with_the_given_addition() {
    let mut node = GraphNode::leaf(NodeId::new(0), scalar(1.0), true);
    node.accumulate_grad(scalar(2.0), &sum).expect("first gradient is stored");
    assert_eq!(node.grad().map(Tensor::data), Some(&[2.0][..]));
    node.accumulate_grad(scalar(0.5), &sum).expect("second gradient is added");
    assert_eq!(node.grad().map(Tensor::data), Some(&[2.5][..]));

    let failing = |_: &Value, _: &Value| -> Result<Value, RustGradError> {
        Err(RustGradError::EmptyTensor)
    };
    assert_eq!(
        node.accumulate_grad(scalar(1.0), &failing),
        Err(RustGradError::EmptyTensor)
    );
    assert!(node.grad().is_none());
}

#[test]
fn backward_on_a_leaf_never_adds_gradients() {
    let mut graph = ComputationGraph::new();
    let output = graph.add_leaf(scalar(3.0), true);

    graph
        .backward(output, ones_like, rules, |_: &Value, _: &Value| {
            Err(RustGradError::EmptyTensor)
        })
        .expect("no gradient is added on a single leaf");
    assert_eq!(grad(&graph, output), Some(&[1.0][..]));
}

#[test]
fn gradient_rule_follows_the_operation() {
    assert_eq!(gradient_rule(&Operation::Leaf, &[]), Ok(GradientRule::Leaf));
    assert_eq!(gradient_rule(&Operation::Add, &[2]), Ok(GradientRule::Add));
    assert_eq!(gradient_rule(&Operation::MatMul, &[2, 3]), Ok(GradientRule::MatMul));
    assert_eq!(gradient_rule(&Operation::Transpose, &[3, 2]), Ok(GradientRule::Transpose));
    assert_eq!(gradient_rule(&Operation::Softmax, &[1, 4]), Ok(GradientRule::Softmax));
}

#[test]
fn gradient_rule_refuses_a_custom_operation() {
    assert_eq!(
        gradient_rule(&Operation::Custom("dropout".to_string()), &[3, 4, 5]),
        Err(RustGradError::UnsupportedOperation {
            op: "dropout".to_string(),
            reason: "gradient rule is not implemented yet for upstream shape [3, 4, 5]".to_string(),
        })
    );
    assert_eq!(
        gradient_rule(&Operation::Custom("noop".to_string()), &[]),
        Err(RustGradError::UnsupportedOperation {
            op: "noop".to_string(),
            reason: "gradient rule is not implemented yet for upstream shape []".to_string(),
        })
    );
}
