//! Computation graph bookkeeping for reverse-mode automatic differentiation.
//!
//! The graph stores one value per node, the parent links, the producing
//! operation, and an optional accumulated gradient. The value type is a
//! parameter so that the numeric tensor type stays with the caller.
use vstd::prelude::*;

use crate::error::{Result, RustGradError, is_invalid_argument, is_unsupported_operation};
use crate::text::{debug_list, decimal, push_debug_list, push_decimal};

verus! {

/// Stable identifier for a node in a computation graph.
#[derive(Debug, Clone, Copy, PartialEq, Eq, Structural, Hash, Ord)]
pub struct NodeId(usize);

impl View for NodeId {
    type V = usize;

    closed spec fn view(&self) -> usize {
        self.0
    }
}

impl NodeId {
    /// Creates a node identifier from its raw index.
    pub fn new(index: usize) -> (id: NodeId)
        ensures
            id@ == index,
    {
        NodeId(index)
    }

    /// Returns the raw graph index.
    pub fn index(self) -> (i: usize)
        ensures
            i == self@,
    {
        self.0
    }
}

/// Two node identifiers are equal exactly when their indices are.
pub proof fn lemma_node_ids_equal_by_index(a: NodeId, b: NodeId)
    ensures
        (a == b) <==> (a@ == b@),
{
}

/// Operation represented by a computation graph node.
#[derive(Debug, Clone, PartialEq, Eq)]
pub enum Operation {
    /// A leaf tensor directly provided by the user or a trainable parameter.
    Leaf,
    /// Elementwise addition.
    Add,
    /// Elementwise subtraction.
    Sub,
    /// Elementwise multiplication.
    Mul,
    /// Elementwise division.
    Div,
    /// Matrix multiplication.
    MatMul,
    /// Matrix transpose.
    Transpose,
    /// Sum reduction.
    Sum,
    /// Mean reduction.
    Mean,
    /// Rectified linear unit activation.
    Relu,
    /// Sigmoid activation.
    Sigmoid,
    /// Hyperbolic tangent activation.
    Tanh,
    /// Softmax activation.
    Softmax,
    /// Named operation used by future layers or examples.
    Custom(String),
}

/// The human-readable name of an operation.
pub open spec fn operation_name(op: Operation) -> Seq<char> {
    match op {
        Operation::Leaf => "leaf"@,
        Operation::Add => "add"@,
        Operation::Sub => "sub"@,
        Operation::Mul => "mul"@,
        Operation::Div => "div"@,
        Operation::MatMul => "matmul"@,
        Operation::Transpose => "transpose"@,
        Operation::Sum => "sum"@,
        Operation::Mean => "mean"@,
        Operation::Relu => "relu"@,
        Operation::Sigmoid => "sigmoid"@,
        Operation::Tanh => "tanh"@,
        Operation::Softmax => "softmax"@,
        Operation::Custom(name) => name@,
    }
}

impl Operation {
    /// Returns a human-readable operation name.
    pub fn name(&self) -> (r: &str)
        ensures
            r@ == operation_name(*self),
    {
        match self {
            Operation::Leaf => "leaf",
            Operation::Add => "add",
            Operation::Sub => "sub",
            Operation::Mul => "mul",
            Operation::Div => "div",
            Operation::MatMul => "matmul",
            Operation::Transpose => "transpose",
            Operation::Sum => "sum",
            Operation::Mean => "mean",
            Operation::Relu => "relu",
            Operation::Sigmoid => "sigmoid",
            Operation::Tanh => "tanh",
            Operation::Softmax => "softmax",
            Operation::Custom(name) => name.as_str(),
        }
    }
}

/// The local gradient rule that backpropagation applies at a node.
#[derive(Debug, Clone, Copy, PartialEq, Eq, Structural)]
pub enum GradientRule {
    /// A leaf passes nothing on.
    Leaf,
    /// Elementwise addition.
    Add,
    /// Elementwise subtraction.
    Sub,
    /// Elementwise multiplication.
    Mul,
    /// Elementwise division.
    Div,
    /// Matrix multiplication.
    MatMul,
    /// Sum reduction.
    Sum,
    /// Mean reduction.
    Mean,
    /// Matrix transpose.
    Transpose,
    /// Rectified linear unit activation.
    Relu,
    /// Sigmoid activation, from the node's output.
    Sigmoid,
    /// Hyperbolic tangent activation, from the node's output.
    Tanh,
    /// Softmax activation, from the node's output.
    Softmax,
}

/// The gradient rule of an operation; a named custom operation has none.
pub open spec fn rule_of(op: Operation) -> Option<GradientRule> {
    match op {
        Operation::Leaf => Some(GradientRule::Leaf),
        Operation::Add => Some(GradientRule::Add),
        Operation::Sub => Some(GradientRule::Sub),
        Operation::Mul => Some(GradientRule::Mul),
        Operation::Div => Some(GradientRule::Div),
        Operation::MatMul => Some(GradientRule::MatMul),
        Operation::Transpose => Some(GradientRule::Transpose),
        Operation::Sum => Some(GradientRule::Sum),
        Operation::Mean => Some(GradientRule::Mean),
        Operation::Relu => Some(GradientRule::Relu),
        Operation::Sigmoid => Some(GradientRule::Sigmoid),
        Operation::Tanh => Some(GradientRule::Tanh),
        Operation::Softmax => Some(GradientRule::Softmax),
        Operation::Custom(_) => None,
    }
}

/// Each built-in operation gets the gradient rule of its own kind, no two
/// operations share a rule, and a named custom operation gets none.
pub proof fn lemma_rule_matches_operation(a: Operation, b: Operation)
    ensures
        rule_of(Operation::Leaf) == Some(GradientRule::Leaf),
        rule_of(Operation::Add) == Some(GradientRule::Add),
        rule_of(Operation::Sub) == Some(GradientRule::Sub),
        rule_of(Operation::Mul) == Some(GradientRule::Mul),
        rule_of(Operation::Div) == Some(GradientRule::Div),
        rule_of(Operation::MatMul) == Some(GradientRule::MatMul),
        rule_of(Operation::Transpose) == Some(GradientRule::Transpose),
        rule_of(Operation::Sum) == Some(GradientRule::Sum),
        rule_of(Operation::Mean) == Some(GradientRule::Mean),
        rule_of(Operation::Relu) == Some(GradientRule::Relu),
        rule_of(Operation::Sigmoid) == Some(GradientRule::Sigmoid),
        rule_of(Operation::Tanh) == Some(GradientRule::Tanh),
        rule_of(Operation::Softmax) == Some(GradientRule::Softmax),
        a is Custom ==> rule_of(a) is None,
        rule_of(a) is Some && rule_of(a) == rule_of(b) ==> a == b,
{
}

/// The reason given when an operation has no gradient rule.
pub open spec fn missing_rule_reason(upstream_dims: Seq<usize>) -> Seq<char> {
    "gradient rule is not implemented yet for upstream shape "@ + debug_list(upstream_dims)
}

/// Chooses the gradient rule for a node's operation.
///
/// An operation without a rule is refused with an `UnsupportedOperation`
/// error that names it and the shape of the gradient that reached it.
pub fn gradient_rule(op: &Operation, upstream_dims: &[usize]) -> (r: Result<GradientRule>)
    ensures
        r is Ok <==> rule_of(*op) is Some,
        r matches Ok(g) ==> rule_of(*op) == Some(g),
        r is Err ==> is_unsupported_operation(
            r->Err_0,
            operation_name(*op),
            missing_rule_reason(upstream_dims@),
        ),
{
    match op {
        Operation::Leaf => Ok(GradientRule::Leaf),
        Operation::Add => Ok(GradientRule::Add),
        Operation::Sub => Ok(GradientRule::Sub),
        Operation::Mul => Ok(GradientRule::Mul),
        Operation::Div => Ok(GradientRule::Div),
        Operation::MatMul => Ok(GradientRule::MatMul),
        Operation::Transpose => Ok(GradientRule::Transpose),
        Operation::Sum => Ok(GradientRule::Sum),
        Operation::Mean => Ok(GradientRule::Mean),
        Operation::Relu => Ok(GradientRule::Relu),
        Operation::Sigmoid => Ok(GradientRule::Sigmoid),
        Operation::Tanh => Ok(GradientRule::Tanh),
        Operation::Softmax => Ok(GradientRule::Softmax),
        Operation::Custom(_) => {
            let mut reason = String::new();
            reason.append("gradient rule is not implemented yet for upstream shape ");
            push_debug_list(&mut reason, upstream_dims);
            proof {
                reveal_strlit("gradient rule is not implemented yet for upstream shape ");
            }
            Err(RustGradError::UnsupportedOperation { op: op.name().to_owned(), reason })
        },
    }
}

/// A single value-producing node in the computation graph.
#[derive(Debug, Clone, PartialEq)]
pub struct GraphNode<V> {
    id: NodeId,
    value: V,
    parents: Vec<NodeId>,
    operation: Operation,
    requires_grad: bool,
    grad: Option<V>,
}

impl<V> GraphNode<V> {
    /// The node's identifier.
    pub closed spec fn spec_id(&self) -> NodeId {
        self.id
    }

    /// The value produced by the node.
    pub closed spec fn spec_value(&self) -> V {
        self.value
    }

    /// The parent identifiers, in the order the operation received them.
    pub closed spec fn spec_parents(&self) -> Seq<NodeId> {
        self.parents@
    }

    /// The operation that produced the node.
    pub closed spec fn spec_operation(&self) -> Operation {
        self.operation
    }

    /// Whether gradients are tracked for the node.
    pub closed spec fn spec_requires_grad(&self) -> bool {
        self.requires_grad
    }

    /// The currently accumulated gradient.
    pub closed spec fn spec_grad(&self) -> Option<V> {
        self.grad
    }

    /// Creates a leaf node.
    pub fn leaf(id: NodeId, value: V, requires_grad: bool) -> (n: Self)
        ensures
            n.spec_id() == id,
            n.spec_value() == value,
            n.spec_parents() == Seq::<NodeId>::empty(),
            n.spec_operation() == Operation::Leaf,
            n.spec_requires_grad() == requires_grad,
            n.spec_grad() == None::<V>,
    {
        let parents: Vec<NodeId> = Vec::new();
        GraphNode { id, value, parents, operation: Operation::Leaf, requires_grad, grad: None }
    }

    /// Creates a node produced by an operation.
    pub fn operation(
        id: NodeId,
        value: V,
        parents: Vec<NodeId>,
        operation: Operation,
        requires_grad: bool,
    ) -> (n: Self)
        ensures
            n.spec_id() == id,
            n.spec_value() == value,
            n.spec_parents() == parents@,
            n.spec_operation() == operation,
            n.spec_requires_grad() == requires_grad,
            n.spec_grad() == None::<V>,
    {
        GraphNode { id, value, parents, operation, requires_grad, grad: None }
    }

    /// Returns this node's identifier.
    pub fn id(&self) -> (id: NodeId)
        ensures
            id == self.spec_id(),
    {
        self.id
    }

    /// Returns the value produced by this node.
    pub fn value(&self) -> (v: &V)
        ensures
            *v == self.spec_value(),
    {
        &self.value
    }

    /// Returns the parent node identifiers.
    pub fn parents(&self) -> (p: &[NodeId])
        ensures
            p@ == self.spec_parents(),
    {
        self.parents.as_slice()
    }

    /// Returns the operation that produced this node.
    pub fn operation_kind(&self) -> (op: &Operation)
        ensures
            *op == self.spec_operation(),
    {
        &self.operation
    }

    /// Returns true when gradients should be tracked for this node.
    pub fn requires_grad(&self) -> (b: bool)
        ensures
            b == self.spec_requires_grad(),
    {
        self.requires_grad
    }

    /// Returns the currently accumulated gradient.
    pub fn grad(&self) -> (g: Option<&V>)
        ensures
            g matches Some(v) ==> self.spec_grad() == Some(*v),
            g is None <==> self.spec_grad() is None,
    {
        match &self.grad {
            Some(v) => Some(v),
            None => None,
        }
    }

    /// Replaces the currently accumulated gradient.
    pub fn set_grad(&mut self, grad: V)
        ensures
            final(self).spec_grad() == Some(grad),
            final(self).spec_id() == old(self).spec_id(),
            final(self).spec_value() == old(self).spec_value(),
            final(self).spec_parents() == old(self).spec_parents(),
            final(self).spec_operation() == old(self).spec_operation(),
            final(self).spec_requires_grad() == old(self).spec_requires_grad(),
    {
        self.grad = Some(grad);
    }

    /// Adds a gradient to the one accumulated so far with `combine`, or
    /// stores it when there is none yet. When `combine` fails the node is
    /// left without a gradient.
    pub fn accumulate_grad<A: Fn(&V, &V) -> Result<V>>(&mut self, grad: V, combine: &A) -> (r:
        Result<()>)
        requires
            forall|a: &V, b: &V| #[trigger] call_requires(*combine, (a, b)),
        ensures
            final(self).spec_id() == old(self).spec_id(),
            final(self).spec_value() == old(self).spec_value(),
            final(self).spec_parents() == old(self).spec_parents(),
            final(self).spec_operation() == old(self).spec_operation(),
            final(self).spec_requires_grad() == old(self).spec_requires_grad(),
            old(self).spec_grad() is None ==> r is Ok && final(self).spec_grad() == Some(grad),
            old(self).spec_grad() matches Some(existing) ==> match r {
                Ok(()) => exists|v: V|
                    call_ensures(*combine, (&existing, &grad), Ok::<V, RustGradError>(v))
                        && final(self).spec_grad() == Some(v),
                Err(e) => call_ensures(*combine, (&existing, &grad), Err::<V, RustGradError>(e))
                    && final(self).spec_grad() is None,
            },
    {
        match self.grad.take() {
            Some(existing) => match combine(&existing, &grad) {
                Ok(v) => {
                    self.grad = Some(v);
                    Ok(())
                },
                Err(e) => Err(e),
            },
            None => {
                self.grad = Some(grad);
                Ok(())
            },
        }
    }

    /// Removes and returns the currently accumulated gradient.
    pub fn take_grad(&mut self) -> (g: Option<V>)
        ensures
            g == old(self).spec_grad(),
            final(self).spec_grad() == None::<V>,
            final(self).spec_id() == old(self).spec_id(),
            final(self).spec_value() == old(self).spec_value(),
            final(self).spec_parents() == old(self).spec_parents(),
            final(self).spec_operation() == old(self).spec_operation(),
            final(self).spec_requires_grad() == old(self).spec_requires_grad(),
    {
        let g = self.grad.take();
        g
    }

    /// Clears the currently accumulated gradient.
    pub fn clear_grad(&mut self)
        ensures
            final(self).spec_grad() == None::<V>,
            final(self).spec_id() == old(self).spec_id(),
            final(self).spec_value() == old(self).spec_value(),
            final(self).spec_parents() == old(self).spec_parents(),
            final(self).spec_operation() == old(self).spec_operation(),
            final(self).spec_requires_grad() == old(self).spec_requires_grad(),
    {
        self.grad = None;
    }
}

/// The `InvalidArgument` error that names a missing node.
pub open spec fn is_missing_node_error(e: RustGradError, arg: Seq<char>, node: nat) -> bool {
    is_invalid_argument(e, arg, "node "@ + decimal(node) + " does not exist"@)
}

/// Append-only computation graph used by automatic differentiation.
#[derive(Debug, Clone)]
pub struct ComputationGraph<V> {
    nodes: Vec<GraphNode<V>>,
}

impl<V> ComputationGraph<V> {
    /// The nodes in insertion order.
    pub closed spec fn spec_nodes(&self) -> Seq<GraphNode<V>> {
        self.nodes@
    }

    /// Every node sits at the index its identifier names, and every parent
    /// was inserted before its child. Graphs built with `add_leaf` and
    /// `add_operation` keep this.
    pub open spec fn well_formed(&self) -> bool {
        let g = self.spec_nodes();
        &&& forall|i: int| 0 <= i < g.len() ==> (#[trigger] g[i]).spec_id()@ == i
        &&& forall|i: int, k: int|
            0 <= i < g.len() && 0 <= k < g[i].spec_parents().len() ==> (
            #[trigger] g[i].spec_parents()[k])@ < i
    }

    /// Creates an empty computation graph.
    pub fn new() -> (g: Self)
        ensures
            g.spec_nodes() == Seq::<GraphNode<V>>::empty(),
            g.well_formed(),
    {
        ComputationGraph { nodes: Vec::new() }
    }

    /// Returns the number of nodes in the graph.
    pub fn len(&self) -> (n: usize)
        ensures
            n == self.spec_nodes().len(),
    {
        self.nodes.len()
    }

    /// Returns true when the graph has no nodes.
    pub fn is_empty(&self) -> (b: bool)
        ensures
            b == (self.spec_nodes().len() == 0),
    {
        self.nodes.len() == 0
    }

    fn next_id(&self) -> (id: NodeId)
        ensures
            id@ == self.spec_nodes().len(),
    {
        NodeId::new(self.nodes.len())
    }

    /// Adds a leaf value and returns its node identifier.
    pub fn add_leaf(&mut self, value: V, requires_grad: bool) -> (id: NodeId)
        requires
            old(self).spec_nodes().len() < usize::MAX,
        ensures
            id@ == old(self).spec_nodes().len(),
            final(self).spec_nodes().len() == old(self).spec_nodes().len() + 1,
            final(self).spec_nodes().drop_last() == old(self).spec_nodes(),
            final(self).spec_nodes().last().spec_id() == id,
            final(self).spec_nodes().last().spec_value() == value,
            final(self).spec_nodes().last().spec_parents() == Seq::<NodeId>::empty(),
            final(self).spec_nodes().last().spec_operation() == Operation::Leaf,
            final(self).spec_nodes().last().spec_requires_grad() == requires_grad,
            final(self).spec_nodes().last().spec_grad() == None::<V>,
            old(self).well_formed() ==> final(self).well_formed(),
    {
        let id = self.next_id();
        self.nodes.push(GraphNode::leaf(id, value, requires_grad));
        assert(self.nodes@.drop_last() =~= old(self).nodes@);
        id
    }

    fn validate_parents(&self, parents: &[NodeId]) -> (r: Result<()>)
        ensures
            r is Ok <==> forall|k: int|
                0 <= k < parents@.len() ==> (#[trigger] parents@[k])@ < self.spec_nodes().len(),
            r matches Err(e) ==> exists|k: int|
                0 <= k < parents@.len() && (#[trigger] parents@[k])@ >= self.spec_nodes().len()
                    && (forall|j: int| 0 <= j < k ==> (#[trigger] parents@[j])@ < self.spec_nodes().len())
                    && is_missing_node_error(e, "parents"@, parents@[k]@ as nat),
    {
        let n = parents.len();
        let mut i: usize = 0;
        while i < n
            invariant
                n == parents@.len(),
                i <= n,
                forall|j: int| 0 <= j < i ==> (#[trigger] parents@[j])@ < self.spec_nodes().len(),
            decreases n - i,
        {
            let p = parents[i];
            if p.index() >= self.nodes.len() {
                let mut reason = String::new();
                reason.append("node ");
                push_decimal(&mut reason, p.index());
                reason.append(" does not exist");
                assert(reason@ =~= "node "@ + decimal(p@ as nat) + " does not exist"@);
                return Err(RustGradError::InvalidArgument { name: "parents", reason });
            }
            i += 1;
        }
        Ok(())
    }

    /// Adds an operation node and returns its node identifier.
    ///
    /// Every parent must already exist in the graph.
    pub fn add_operation(
        &mut self,
        operation: Operation,
        parents: Vec<NodeId>,
        value: V,
        requires_grad: bool,
    ) -> (r: Result<NodeId>)
        requires
            old(self).spec_nodes().len() < usize::MAX,
        ensures
            r is Ok <==> forall|k: int|
                0 <= k < parents@.len() ==> (#[trigger] parents@[k])@ < old(self).spec_nodes().len(),
            r matches Err(e) ==> *final(self) == *old(self) && exists|k: int|
                0 <= k < parents@.len() && (#[trigger] parents@[k])@ >= old(self).spec_nodes().len()
                    && (forall|j: int| 0 <= j < k ==> (#[trigger] parents@[j])@ < old(self).spec_nodes().len())
                    && is_missing_node_error(e, "parents"@, parents@[k]@ as nat),
            r matches Ok(id) ==> {
                &&& id@ == old(self).spec_nodes().len()
                &&& final(self).spec_nodes().len() == old(self).spec_nodes().len() + 1
                &&& final(self).spec_nodes().drop_last() == old(self).spec_nodes()
                &&& final(self).spec_nodes().last().spec_id() == id
                &&& final(self).spec_nodes().last().spec_value() == value
                &&& final(self).spec_nodes().last().spec_parents() == parents@
                &&& final(self).spec_nodes().last().spec_operation() == operation
                &&& final(self).spec_nodes().last().spec_requires_grad() == requires_grad
                &&& final(self).spec_nodes().last().spec_grad() == None::<V>
            },
            old(self).well_formed() ==> final(self).well_formed(),
    {
        self.validate_parents(parents.as_slice())?;
        let id = self.next_id();
        self.nodes.push(GraphNode::operation(id, value, parents, operation, requires_grad));
        assert(self.nodes@.drop_last() =~= old(self).nodes@);
        Ok(id)
    }

    /// Returns a node by identifier.
    pub fn node(&self, id: NodeId) -> (r: Option<&GraphNode<V>>)
        ensures
            r is Some <==> id@ < self.spec_nodes().len(),
            r matches Some(n) ==> *n == self.spec_nodes()[id@ as int],
    {
        if id.index() < self.nodes.len() {
            Some(&self.nodes[id.index()])
        } else {
            None
        }
    }

    /// Returns a mutable node by identifier.
    pub fn node_mut(&mut self, id: NodeId) -> (r: Option<&mut GraphNode<V>>)
        ensures
            r is Some <==> id@ < old(self).spec_nodes().len(),
            r is None ==> *final(self) == *old(self),
            r matches Some(n) ==> *n == old(self).spec_nodes()[id@ as int]
                && final(self).spec_nodes() == old(self).spec_nodes().update(id@ as int, *final(n)),
    {
        if id.index() < self.nodes.len() {
            Some(&mut self.nodes[id.index()])
        } else {
            None
        }
    }

    /// Returns the graph nodes in insertion order.
    pub fn iter(&self) -> (s: &[GraphNode<V>])
        ensures
            s@ == self.spec_nodes(),
    {
        self.nodes.as_slice()
    }

    /// Clears all accumulated gradients.
    pub fn clear_gradients(&mut self)
        ensures
            final(self).spec_nodes().len() == old(self).spec_nodes().len(),
            forall|i: int|
                0 <= i < final(self).spec_nodes().len() ==> {
                    let n = #[trigger] final(self).spec_nodes()[i];
                    let o = old(self).spec_nodes()[i];
                    &&& n.spec_grad() == None::<V>
                    &&& n.spec_id() == o.spec_id()
                    &&& n.spec_value() == o.spec_value()
                    &&& n.spec_parents() == o.spec_parents()
                    &&& n.spec_operation() == o.spec_operation()
                    &&& n.spec_requires_grad() == o.spec_requires_grad()
                },
            old(self).well_formed() ==> final(self).well_formed(),
    {
        let n = self.nodes.len();
        let mut i: usize = 0;
        while i < n
            invariant
                n == self.nodes@.len(),
                n == old(self).nodes@.len(),
                i <= n,
                forall|j: int|
                    0 <= j < n ==> {
                        let a = #[trigger] self.nodes@[j];
                        let o = old(self).nodes@[j];
                        &&& (j < i ==> a.spec_grad() == None::<V>)
                        &&& (j >= i ==> a.spec_grad() == o.spec_grad())
                        &&& a.spec_id() == o.spec_id()
                        &&& a.spec_value() == o.spec_value()
                        &&& a.spec_parents() == o.spec_parents()
                        &&& a.spec_operation() == o.spec_operation()
                        &&& a.spec_requires_grad() == o.spec_requires_grad()
                    },
            decreases n - i,
        {
            self.nodes[i].clear_grad();
            i += 1;
        }
        proof {
            if old(self).well_formed() {
                let g = self.spec_nodes();
                assert forall|i: int, k: int|
                    0 <= i < g.len() && 0 <= k < g[i].spec_parents().len() implies (
                    #[trigger] g[i].spec_parents()[k])@ < i by {
                    assert(g[i].spec_parents() == old(self).nodes@[i].spec_parents());
                }
                assert forall|i: int| 0 <= i < g.len() implies (#[trigger] g[i]).spec_id()@ == i by {
                    assert(g[i].spec_id() == old(self).nodes@[i].spec_id());
                }
            }
        }
    }
}

/// `parent` is listed among the parents of the existing node `child`.
pub open spec fn is_parent_of<V>(g: Seq<GraphNode<V>>, child: int, parent: int) -> bool {
    &&& 0 <= child < g.len()
    &&& exists|k: int|
        0 <= k < g[child].spec_parents().len() && (#[trigger] g[child].spec_parents()[k])@ == parent
}

/// Consecutive entries `i` and `i + 1` of `p` are a node and one of its parents.
pub open spec fn link<V>(g: Seq<GraphNode<V>>, p: Seq<int>, i: int) -> bool {
    is_parent_of(g, p[i], p[i + 1])
}

/// A non-empty walk along parent links.
pub open spec fn is_path<V>(g: Seq<GraphNode<V>>, p: Seq<int>) -> bool {
    &&& p.len() > 0
    &&& forall|i: int| 0 <= i < p.len() - 1 ==> #[trigger] link(g, p, i)
}

/// `to` is `from` itself or one of its transitive dependencies.
pub open spec fn depends_on<V>(g: Seq<GraphNode<V>>, from: int, to: int) -> bool {
    exists|p: Seq<int>| #[trigger] is_path(g, p) && p[0] == from && p.last() == to
}

/// The sequence lists the node index `x`.
pub open spec fn lists(s: Seq<NodeId>, x: int) -> bool {
    exists|i: int| 0 <= i < s.len() && (#[trigger] s[i])@ == x
}

/// No node index is listed twice.
pub open spec fn no_duplicates(s: Seq<NodeId>) -> bool {
    forall|i: int, j: int| 0 <= i < s.len() && 0 <= j < s.len() && i != j ==> (#[trigger] s[i])@ != (#[trigger] s[j])@
}

/// Every parent of a listed node is listed before it.
pub open spec fn dependencies_first<V>(g: Seq<GraphNode<V>>, s: Seq<NodeId>) -> bool {
    forall|i: int, y: int|
        0 <= i < s.len() && #[trigger] is_parent_of(g, (#[trigger] s[i])@ as int, y) ==> exists|j: int|
            0 <= j < i && (#[trigger] s[j])@ == y
}

/// Number of entries that are still `false`.
pub open spec fn count_false(s: Seq<bool>) -> nat
    decreases s.len(),
{
    if s.len() == 0 {
        0
    } else {
        count_false(s.drop_last()) + if s.last() {
            0nat
        } else {
            1nat
        }
    }
}

/// Marking more entries leaves no more entries unmarked.
pub proof fn lemma_count_false_monotone(a: Seq<bool>, b: Seq<bool>)
    requires
        a.len() == b.len(),
        forall|i: int| 0 <= i < a.len() && #[trigger] a[i] ==> b[i],
    ensures
        count_false(b) <= count_false(a),
    decreases a.len(),
{
    if a.len() > 0 {
        let a2 = a.drop_last();
        let b2 = b.drop_last();
        assert forall|i: int| 0 <= i < a2.len() && #[trigger] a2[i] implies b2[i] by {
            assert(a[i]);
        }
        lemma_count_false_monotone(a2, b2);
        assert(a.last() ==> b.last()) by {
            if a.last() {
                assert(a[a.len() - 1]);
            }
        }
    }
}

/// Marking an unmarked entry leaves fewer entries unmarked.
pub proof fn lemma_count_false_mark(a: Seq<bool>, i: int)
    requires
        0 <= i < a.len(),
        !a[i],
    ensures
        count_false(a.update(i, true)) < count_false(a),
    decreases a.len(),
{
    let b = a.update(i, true);
    if i == a.len() - 1 {
        assert(b.drop_last() =~= a.drop_last());
    } else {
        assert(b.drop_last() =~= a.drop_last().update(i, true));
        lemma_count_false_mark(a.drop_last(), i);
    }
}

/// A dependency followed by one more parent link is a dependency.
proof fn lemma_depends_on_extend<V>(g: Seq<GraphNode<V>>, from: int, y: int, to: int)
    requires
        depends_on(g, from, y),
        is_parent_of(g, y, to),
    ensures
        depends_on(g, from, to),
{
    let p = choose|p: Seq<int>| #[trigger] is_path(g, p) && p[0] == from && p.last() == y;
    let q = p.push(to);
    assert forall|i: int| 0 <= i < q.len() - 1 implies #[trigger] link(g, q, i) by {
        if i < p.len() - 1 {
            assert(link(g, p, i));
        }
    }
    assert(is_path(g, q));
}

/// Every node depends on itself, by the path of that node alone.
proof fn lemma_depends_on_self<V>(g: Seq<GraphNode<V>>, x: int)
    ensures
        depends_on(g, x, x),
{
    assert(is_path(g, seq![x]));
}

/// A list that holds the start of a path and the parents of each of its
/// nodes holds every node of the path.
proof fn lemma_closed_holds_path<V>(g: Seq<GraphNode<V>>, s: Seq<NodeId>, p: Seq<int>, k: int)
    requires
        is_path(g, p),
        0 <= k < p.len(),
        lists(s, p[0]),
        forall|i: int, y: int|
            0 <= i < s.len() && #[trigger] is_parent_of(g, (#[trigger] s[i])@ as int, y) ==> lists(s, y),
    ensures
        lists(s, p[k]),
    decreases k,
{
    if k > 0 {
        lemma_closed_holds_path(g, s, p, k - 1);
        assert(link(g, p, k - 1));
        let i = choose|i: int| 0 <= i < s.len() && (#[trigger] s[i])@ == p[k - 1];
        assert(is_parent_of(g, s[i]@ as int, p[k]));
    }
}

/// A list that holds `from` and the parents of each of its nodes holds every
/// dependency of `from`.
proof fn lemma_closed_holds_dependencies<V>(g: Seq<GraphNode<V>>, s: Seq<NodeId>, from: int, to: int)
    requires
        lists(s, from),
        forall|i: int, y: int|
            0 <= i < s.len() && #[trigger] is_parent_of(g, (#[trigger] s[i])@ as int, y) ==> lists(s, y),
        depends_on(g, from, to),
    ensures
        lists(s, to),
{
    let p = choose|p: Seq<int>| #[trigger] is_path(g, p) && p[0] == from && p.last() == to;
    lemma_closed_holds_path(g, s, p, p.len() - 1);
}

/// The nodes visited and not yet listed: the search path of a depth-first walk.
pub open spec fn pending(visited: Seq<bool>, order: Seq<NodeId>, x: int) -> bool {
    0 <= x < visited.len() && visited[x] && !lists(order, x)
}

/// The bookkeeping of a depth-first walk from `output`.
pub open spec fn walk_state<V>(
    g: Seq<GraphNode<V>>,
    output: int,
    visited: Seq<bool>,
    order: Seq<NodeId>,
) -> bool {
    &&& visited.len() == g.len()
    &&& forall|i: int| 0 <= i < order.len() ==> (#[trigger] order[i])@ < g.len() && visited[order[i]@ as int]
    &&& no_duplicates(order)
    &&& forall|x: int| 0 <= x < visited.len() && #[trigger] visited[x] ==> depends_on(g, output, x)
    &&& forall|i: int, y: int|
        0 <= i < order.len() && #[trigger] is_parent_of(g, (#[trigger] order[i])@ as int, y) ==> 0 <= y < g.len()
            && visited[y]
}

/// Every parent of every node has a smaller index.
pub open spec fn parents_precede<V>(g: Seq<GraphNode<V>>) -> bool {
    forall|i: int, k: int|
        0 <= i < g.len() && 0 <= k < g[i].spec_parents().len() ==> (
        #[trigger] g[i].spec_parents()[k])@ < i
}

/// Every entry marked in `a` is marked in `b`.
pub open spec fn marks_kept(a: Seq<bool>, b: Seq<bool>) -> bool {
    &&& b.len() == a.len()
    &&& forall|i: int| 0 <= i < a.len() && #[trigger] a[i] ==> b[i]
}

/// The depth-first walk from `id`: an unvisited node is marked, its parents
/// are walked in the order the node lists them, and the node is appended
/// after them. The walk reports the index of the first missing node it meets.
pub open spec fn walk_from<V>(
    g: Seq<GraphNode<V>>,
    id: NodeId,
    visited: Seq<bool>,
    order: Seq<NodeId>,
) -> core::result::Result<(Seq<bool>, Seq<NodeId>), int>
    decreases count_false(visited), 0int, 0int,
{
    let i = id@ as int;
    if i >= g.len() || visited.len() != g.len() {
        Err(i)
    } else if visited[i] {
        Ok((visited, order))
    } else {
        let marked = visited.update(i, true);
        proof {
            lemma_count_false_mark(visited, i);
        }
        match walk_parents(g, g[i].spec_parents(), 0, marked, order) {
            Ok(state) => Ok((state.0, state.1.push(id))),
            Err(x) => Err(x),
        }
    }
}

/// The depth-first walk over parents `k` onwards of a parent list.
pub open spec fn walk_parents<V>(
    g: Seq<GraphNode<V>>,
    parents: Seq<NodeId>,
    k: int,
    visited: Seq<bool>,
    order: Seq<NodeId>,
) -> core::result::Result<(Seq<bool>, Seq<NodeId>), int>
    decreases count_false(visited), 1int, parents.len() - k,
{
    if k < 0 || k >= parents.len() {
        Ok((visited, order))
    } else {
        match walk_from(g, parents[k], visited, order) {
            Err(x) => Err(x),
            Ok(state) => if marks_kept(visited, state.0) {
                proof {
                    lemma_count_false_monotone(visited, state.0);
                }
                walk_parents(g, parents, k + 1, state.0, state.1)
            } else {
                Err(-1)
            },
        }
    }
}

/// The order in which a depth-first walk from `output` lists the nodes it
/// depends on, or the first missing node it meets.
pub open spec fn dependency_walk<V>(g: Seq<GraphNode<V>>, output: NodeId) -> core::result::Result<
    Seq<NodeId>,
    int,
> {
    match walk_from(g, output, Seq::new(g.len(), |i: int| false), Seq::<NodeId>::empty()) {
        Ok(state) => Ok(state.1),
        Err(x) => Err(x),
    }
}

fn missing_node(arg: &'static str, index: usize) -> (e: RustGradError)
    ensures
        is_missing_node_error(e, arg@, index as nat),
{
    let mut reason = String::new();
    reason.append("node ");
    push_decimal(&mut reason, index);
    reason.append(" does not exist");
    assert(reason@ =~= "node "@ + decimal(index as nat) + " does not exist"@);
    RustGradError::InvalidArgument { name: arg, reason }
}

impl<V> ComputationGraph<V> {
    fn ensure_node_exists(&self, id: NodeId) -> (r: Result<()>)
        ensures
            r is Ok <==> id@ < self.spec_nodes().len(),
            r matches Err(e) ==> is_missing_node_error(e, "node"@, id@ as nat),
    {
        if id.index() < self.nodes.len() {
            Ok(())
        } else {
            Err(missing_node("node", id.index()))
        }
    }

    fn visit_dependencies(
        &self,
        id: NodeId,
        visited: &mut Vec<bool>,
        order: &mut Vec<NodeId>,
        Ghost(output): Ghost<int>,
    ) -> (r: Result<()>)
        requires
            walk_state(self.spec_nodes(), output, old(visited)@, old(order)@),
            depends_on(self.spec_nodes(), output, id@ as int),
            parents_precede(self.spec_nodes()) ==> forall|x: int|
                #[trigger] pending(old(visited)@, old(order)@, x) ==> x > id@,
        ensures
            r matches Err(e) ==> exists|x: int|
                x >= self.spec_nodes().len() && #[trigger] depends_on(self.spec_nodes(), output, x)
                    && is_missing_node_error(e, "node"@, x as nat)
                    && walk_from(self.spec_nodes(), id, old(visited)@, old(order)@) == Err::<
                    (Seq<bool>, Seq<NodeId>),
                    int,
                >(x),
            r is Ok ==> walk_from(self.spec_nodes(), id, old(visited)@, old(order)@) == Ok::<
                (Seq<bool>, Seq<NodeId>),
                int,
            >((final(visited)@, final(order)@)),
            r is Ok ==> {
                let g = self.spec_nodes();
                let v0 = old(visited)@;
                let v1 = final(visited)@;
                let o0 = old(order)@;
                let o1 = final(order)@;
                &&& walk_state(g, output, v1, o1)
                &&& o1.len() >= o0.len()
                &&& o1.take(o0.len() as int) == o0
                &&& forall|x: int| 0 <= x < v0.len() && #[trigger] v0[x] ==> v1[x]
                &&& forall|x: int| #[trigger] pending(v1, o1, x) == pending(v0, o0, x)
                &&& id@ < g.len()
                &&& v1[id@ as int]
                &&& !v0[id@ as int] ==> lists(o1, id@ as int) && o1.last() == id
                &&& parents_precede(g) && dependencies_first(g, o0) ==> dependencies_first(g, o1)
                &&& count_false(v1) <= count_false(v0)
            },
        decreases count_false(old(visited)@),
    {
        let ghost g = self.spec_nodes();
        if id.index() >= self.nodes.len() {
            return Err(missing_node("node", id.index()));
        }
        let idx = id.index();
        if visited[idx] {
            return Ok(());
        }
        let ghost v0 = visited@;
        let ghost o0 = order@;
        proof {
            lemma_count_false_mark(visited@, idx as int);
            assert(!lists(order@, idx as int));
        }
        visited.set(idx, true);
        let ghost marked = visited@;
        let parents = self.nodes[idx].parents.as_slice();
        let np = parents.len();
        let mut k: usize = 0;
        while k < np
            invariant
                g == self.spec_nodes(),
                v0 == old(visited)@,
                o0 == old(order)@,
                np == parents@.len(),
                parents@ == g[idx as int].spec_parents(),
                idx == id@,
                idx < g.len(),
                k <= np,
                walk_state(g, output, visited@, order@),
                depends_on(g, output, idx as int),
                visited@[idx as int],
                !v0[idx as int],
                v0.len() == g.len(),
                order@.len() >= o0.len(),
                order@.take(o0.len() as int) == o0,
                forall|x: int| 0 <= x < v0.len() && #[trigger] v0[x] ==> visited@[x],
                forall|x: int|
                    #[trigger] pending(visited@, order@, x) == (pending(v0, o0, x) || x == idx),
                forall|j: int|
                    0 <= j < k ==> (#[trigger] parents@[j])@ < g.len() && visited@[parents@[j]@ as int],
                parents_precede(g) ==> forall|j: int| 0 <= j < k ==> lists(order@, (#[trigger] parents@[j])@ as int),
                parents_precede(g) ==> forall|x: int| #[trigger] pending(v0, o0, x) ==> x > idx,
                parents_precede(g) && dependencies_first(g, o0) ==> dependencies_first(g, order@),
                count_false(visited@) < count_false(v0),
                marked == v0.update(idx as int, true),
                walk_parents(g, parents@, 0, marked, o0) == walk_parents(g, parents@, k as int, visited@, order@),
            decreases np - k,
        {
            let parent = parents[k];
            proof {
                assert(is_parent_of(g, idx as int, parent@ as int)) by {
                    assert(g[idx as int].spec_parents()[k as int] == parent);
                }
                lemma_depends_on_extend(g, output, idx as int, parent@ as int);
                if parents_precede(g) {
                    assert(parent@ < idx) by {
                        assert(g[idx as int].spec_parents()[k as int] == parent);
                    }
                    assert forall|x: int| #[trigger] pending(visited@, order@, x) implies x > parent@ by {
                        if pending(v0, o0, x) {
                        } else {
                            assert(x == idx);
                        }
                    }
                }
            }
            let ghost v_before = visited@;
            let ghost o_before = order@;
            let step = self.visit_dependencies(parent, visited, order, Ghost(output));
            match step {
                Err(e) => {
                    proof {
                        let x = choose|x: int|
                            x >= g.len() && #[trigger] depends_on(g, output, x) && is_missing_node_error(
                                e,
                                "node"@,
                                x as nat,
                            ) && walk_from(g, parent, v_before, o_before) == Err::<
                                (Seq<bool>, Seq<NodeId>),
                                int,
                            >(x);
                        assert(walk_parents(g, parents@, k as int, v_before, o_before) == Err::<
                            (Seq<bool>, Seq<NodeId>),
                            int,
                        >(x));
                        assert(walk_from(g, id, v0, o0) == Err::<(Seq<bool>, Seq<NodeId>), int>(x));
                    }
                    return Err(e);
                },
                Ok(()) => {},
            }
            proof {
                assert(marks_kept(v_before, visited@));
                assert(walk_parents(g, parents@, k as int, v_before, o_before) == walk_parents(
                    g,
                    parents@,
                    k + 1,
                    visited@,
                    order@,
                ));
                assert(order@.take(o0.len() as int) =~= o0) by {
                    assert(order@.take(o_before.len() as int) == o_before);
                    assert forall|i: int| 0 <= i < o0.len() implies order@[i] == o0[i] by {
                        assert(order@[i] == o_before[i]);
                        assert(o_before[i] == o0[i]);
                    }
                }
                assert forall|j: int| 0 <= j < k + 1 implies (#[trigger] parents@[j])@ < g.len()
                    && visited@[parents@[j]@ as int] by {
                    if j < k {
                        assert(v_before[parents@[j]@ as int]);
                    }
                }
                if parents_precede(g) {
                    assert forall|j: int| 0 <= j < k + 1 implies lists(order@, (#[trigger] parents@[j])@ as int) by {
                        if j < k {
                            let i = choose|i: int| 0 <= i < o_before.len() && (#[trigger] o_before[i])@ == parents@[j]@;
                            assert(order@[i] == o_before[i]);
                        } else {
                            assert(parents@[j] == parent);
                            if !lists(order@, parent@ as int) {
                                assert(pending(visited@, order@, parent@ as int));
                                assert(pending(v_before, o_before, parent@ as int));
                            }
                        }
                    }
                }
            }
            k += 1;
        }
        proof {
            assert(!lists(order@, idx as int)) by {
                assert(pending(visited@, order@, idx as int));
            }
        }
        let ghost o_mid = order@;
        order.push(id);
        proof {
            assert(walk_parents(g, parents@, np as int, visited@, o_mid) == Ok::<
                (Seq<bool>, Seq<NodeId>),
                int,
            >((visited@, o_mid)));
            assert(walk_from(g, id, v0, o0) == Ok::<(Seq<bool>, Seq<NodeId>), int>(
                (visited@, order@),
            ));
            let o1 = order@;
            assert(o1.take(o0.len() as int) =~= o0) by {
                assert forall|i: int| 0 <= i < o0.len() implies o1[i] == o0[i] by {
                    assert(o1[i] == o_mid[i]);
                    assert(o_mid.take(o0.len() as int)[i] == o0[i]);
                }
            }
            assert(lists(o1, idx as int)) by {
                assert(o1[o1.len() - 1] == id);
            }
            assert forall|x: int| #[trigger] lists(o1, x) == (lists(o_mid, x) || x == idx) by {
                if lists(o1, x) {
                    let i = choose|i: int| 0 <= i < o1.len() && (#[trigger] o1[i])@ == x;
                    if i < o_mid.len() {
                        assert(o_mid[i] == o1[i]);
                    }
                }
                if lists(o_mid, x) {
                    let i = choose|i: int| 0 <= i < o_mid.len() && (#[trigger] o_mid[i])@ == x;
                    assert(o1[i] == o_mid[i]);
                }
            }
            assert forall|x: int| #[trigger] pending(visited@, o1, x) == pending(v0, o0, x) by {
                assert(lists(o1, x) == (lists(o_mid, x) || x == idx));
                assert(pending(visited@, o_mid, x) == (pending(v0, o0, x) || x == idx));
                if x == idx {
                    assert(!v0[idx as int]);
                }
            }
            assert(walk_state(g, output, visited@, o1)) by {
                assert forall|i: int| 0 <= i < o1.len() implies (#[trigger] o1[i])@ < g.len()
                    && visited@[o1[i]@ as int] by {
                    if i < o_mid.len() {
                        assert(o1[i] == o_mid[i]);
                    }
                }
                assert forall|i: int, j: int|
                    0 <= i < o1.len() && 0 <= j < o1.len() && i != j implies (#[trigger] o1[i])@ != (
                    #[trigger] o1[j])@ by {
                    if i < o_mid.len() && j < o_mid.len() {
                        assert(o1[i] == o_mid[i]);
                        assert(o1[j] == o_mid[j]);
                    } else if i < o_mid.len() {
                        assert(o1[i] == o_mid[i]);
                        assert(lists(o_mid, o1[i]@ as int));
                    } else if j < o_mid.len() {
                        assert(o1[j] == o_mid[j]);
                        assert(lists(o_mid, o1[j]@ as int));
                    }
                }
                assert forall|i: int, y: int|
                    0 <= i < o1.len() && #[trigger] is_parent_of(g, (#[trigger] o1[i])@ as int, y) implies 0
                    <= y < g.len() && visited@[y] by {
                    if i < o_mid.len() {
                        assert(o1[i] == o_mid[i]);
                    } else {
                        let kk = choose|kk: int|
                            0 <= kk < g[idx as int].spec_parents().len() && (
                            #[trigger] g[idx as int].spec_parents()[kk])@ == y;
                        assert(parents@[kk] == g[idx as int].spec_parents()[kk]);
                    }
                }
            }
            if parents_precede(g) && dependencies_first(g, o0) {
                assert forall|i: int, y: int|
                    0 <= i < o1.len() && #[trigger] is_parent_of(g, (#[trigger] o1[i])@ as int, y) implies exists|
                    j: int,
                | 0 <= j < i && (#[trigger] o1[j])@ == y by {
                    if i < o_mid.len() {
                        assert(o1[i] == o_mid[i]);
                        let j = choose|j: int| 0 <= j < i && (#[trigger] o_mid[j])@ == y;
                        assert(o1[j] == o_mid[j]);
                    } else {
                        let kk = choose|kk: int|
                            0 <= kk < g[idx as int].spec_parents().len() && (
                            #[trigger] g[idx as int].spec_parents()[kk])@ == y;
                        assert(parents@[kk] == g[idx as int].spec_parents()[kk]);
                        assert(lists(o_mid, (parents@[kk])@ as int));
                        let j = choose|j: int| 0 <= j < o_mid.len() && (#[trigger] o_mid[j])@ == y;
                        assert(o1[j] == o_mid[j]);
                    }
                }
            }
        }
        Ok(())
    }

    /// Returns node identifiers in dependency-first topological order.
    ///
    /// The order starts from the dependencies of `output` and ends with
    /// `output` itself; every dependency appears exactly once.
    pub fn topological_order(&self, output: NodeId) -> (r: Result<Vec<NodeId>>)
        ensures
            r is Ok <==> forall|x: int|
                #[trigger] depends_on(self.spec_nodes(), output@ as int, x) ==> x < self.spec_nodes().len(),
            r matches Err(e) ==> exists|x: int|
                x >= self.spec_nodes().len() && #[trigger] depends_on(self.spec_nodes(), output@ as int, x)
                    && is_missing_node_error(e, "node"@, x as nat) && dependency_walk(
                    self.spec_nodes(),
                    output,
                ) == Err::<Seq<NodeId>, int>(x),
            r matches Ok(order) ==> dependency_walk(self.spec_nodes(), output) == Ok::<Seq<NodeId>, int>(
                order@,
            ),
            r matches Ok(order) ==> {
                let g = self.spec_nodes();
                let s = order@;
                &&& s.len() > 0
                &&& s.last() == output
                &&& no_duplicates(s)
                &&& forall|x: int| #[trigger] lists(s, x) <==> depends_on(g, output@ as int, x)
                &&& forall|i: int| 0 <= i < s.len() ==> (#[trigger] s[i])@ < g.len()
                &&& parents_precede(g) ==> dependencies_first(g, s)
            },
    {
        let ghost g = self.spec_nodes();
        proof {
            lemma_depends_on_self(g, output@ as int);
        }
        self.ensure_node_exists(output)?;
        let n = self.nodes.len();
        let mut visited: Vec<bool> = Vec::new();
        let mut i: usize = 0;
        while i < n
            invariant
                n == g.len(),
                i <= n,
                visited@ == Seq::new(i as nat, |j: int| false),
            decreases n - i,
        {
            visited.push(false);
            i += 1;
            assert(visited@ =~= Seq::new(i as nat, |j: int| false));
        }
        let mut order: Vec<NodeId> = Vec::new();
        proof {
            lemma_depends_on_self(g, output@ as int);
            assert(walk_state(g, output@ as int, visited@, order@));
            assert forall|x: int| #[trigger] pending(visited@, order@, x) implies x > output@ by {
                assert(!visited@[x]);
            }
            assert(dependencies_first(g, order@));
        }
        let ghost v0 = visited@;
        assert(v0 =~= Seq::new(g.len(), |i: int| false));
        let res = self.visit_dependencies(output, &mut visited, &mut order, Ghost(output@ as int));
        match res {
            Err(e) => {
                return Err(e);
            },
            Ok(()) => {},
        }
        proof {
            let s = order@;
            assert(lists(s, output@ as int));
            assert forall|x: int| 0 <= x < visited@.len() && #[trigger] visited@[x] implies lists(s, x) by {
                assert(!pending(v0, Seq::<NodeId>::empty(), x));
                assert(!pending(visited@, s, x));
            }
            assert forall|i: int, y: int|
                0 <= i < s.len() && #[trigger] is_parent_of(g, (#[trigger] s[i])@ as int, y) implies lists(s, y) by {
                assert(visited@[y]);
            }
            assert forall|x: int| #[trigger] lists(s, x) <==> depends_on(g, output@ as int, x) by {
                if lists(s, x) {
                    let i = choose|i: int| 0 <= i < s.len() && (#[trigger] s[i])@ == x;
                    assert(visited@[s[i]@ as int]);
                }
                if depends_on(g, output@ as int, x) {
                    lemma_closed_holds_dependencies(g, s, output@ as int, x);
                }
            }
            assert forall|x: int| #[trigger] depends_on(g, output@ as int, x) implies x < g.len() by {
                assert(lists(s, x));
                let i = choose|i: int| 0 <= i < s.len() && (#[trigger] s[i])@ == x;
            }
        }
        Ok(order)
    }
}

/// The error for an operation that received the wrong number of parents.
pub open spec fn is_arity_error(e: RustGradError, op: Seq<char>, expected: Seq<char>, got: nat) -> bool {
    is_invalid_argument(e, "parents"@, op + " expects exactly "@ + expected + ", got "@ + decimal(got))
}

fn arity_error(op: &'static str, expected: &'static str, got: usize) -> (e: RustGradError)
    ensures
        is_arity_error(e, op@, expected@, got as nat),
{
    let mut reason = String::new();
    reason.append(op);
    reason.append(" expects exactly ");
    reason.append(expected);
    reason.append(", got ");
    push_decimal(&mut reason, got);
    assert(reason@ =~= op@ + " expects exactly "@ + expected@ + ", got "@ + decimal(got as nat));
    RustGradError::InvalidArgument { name: "parents", reason }
}

impl<V> ComputationGraph<V> {
    fn parent_value(&self, id: NodeId) -> (r: Result<&V>)
        ensures
            r is Ok <==> id@ < self.spec_nodes().len(),
            r matches Ok(v) ==> *v == self.spec_nodes()[id@ as int].spec_value(),
            r matches Err(e) ==> is_missing_node_error(e, "parents"@, id@ as nat),
    {
        if id.index() < self.nodes.len() {
            Ok(self.nodes[id.index()].value())
        } else {
            Err(missing_node("parents", id.index()))
        }
    }

    /// Looks up the two parents of a binary operation and their values.
    pub fn binary_parent_values(&self, parents: &[NodeId], op: &'static str) -> (r: Result<
        (NodeId, &V, NodeId, &V),
    >)
        ensures
            r is Ok <==> parents@.len() == 2 && parents@[0]@ < self.spec_nodes().len()
                && parents@[1]@ < self.spec_nodes().len(),
            parents@.len() != 2 ==> r is Err && is_arity_error(
                r->Err_0,
                op@,
                "2 parents"@,
                parents@.len(),
            ),
            parents@.len() == 2 && parents@[0]@ >= self.spec_nodes().len() ==> r is Err
                && is_missing_node_error(r->Err_0, "parents"@, parents@[0]@ as nat),
            parents@.len() == 2 && parents@[0]@ < self.spec_nodes().len() && parents@[1]@
                >= self.spec_nodes().len() ==> r is Err && is_missing_node_error(
                r->Err_0,
                "parents"@,
                parents@[1]@ as nat,
            ),
            r matches Ok(t) ==> {
                &&& t.0 == parents@[0]
                &&& *t.1 == self.spec_nodes()[parents@[0]@ as int].spec_value()
                &&& t.2 == parents@[1]
                &&& *t.3 == self.spec_nodes()[parents@[1]@ as int].spec_value()
            },
    {
        if parents.len() != 2 {
            return Err(arity_error(op, "2 parents", parents.len()));
        }
        let left_id = parents[0];
        let right_id = parents[1];
        let left_value = self.parent_value(left_id)?;
        let right_value = self.parent_value(right_id)?;
        Ok((left_id, left_value, right_id, right_value))
    }

    /// Looks up the single parent of a unary operation and its value.
    pub fn unary_parent_value(&self, parents: &[NodeId], op: &'static str) -> (r: Result<(NodeId, &V)>)
        ensures
            r is Ok <==> parents@.len() == 1 && parents@[0]@ < self.spec_nodes().len(),
            parents@.len() != 1 ==> r is Err && is_arity_error(
                r->Err_0,
                op@,
                "1 parent"@,
                parents@.len(),
            ),
            parents@.len() == 1 && parents@[0]@ >= self.spec_nodes().len() ==> r is Err
                && is_missing_node_error(r->Err_0, "parents"@, parents@[0]@ as nat),
            r matches Ok(t) ==> t.0 == parents@[0] && *t.1 == self.spec_nodes()[parents@[0]@ as int].spec_value(),
    {
        if parents.len() != 1 {
            return Err(arity_error(op, "1 parent", parents.len()));
        }
        let parent_id = parents[0];
        let parent_value = self.parent_value(parent_id)?;
        Ok((parent_id, parent_value))
    }
}

/// Graphs built only through `add_leaf` and `add_operation` list every
/// parent before its child, so their topological orders put dependencies first.
pub proof fn lemma_built_graph_orders_dependencies_first<V>(g: ComputationGraph<V>)
    requires
        g.well_formed(),
    ensures
        parents_precede(g.spec_nodes()),
{
}

/// Two nodes agree in everything but their gradients.
pub open spec fn same_node<V>(a: GraphNode<V>, b: GraphNode<V>) -> bool {
    &&& a.spec_id() == b.spec_id()
    &&& a.spec_value() == b.spec_value()
    &&& a.spec_parents() == b.spec_parents()
    &&& a.spec_operation() == b.spec_operation()
    &&& a.spec_requires_grad() == b.spec_requires_grad()
}

/// The graphs have the same nodes, gradients aside.
pub open spec fn same_structure<V>(a: Seq<GraphNode<V>>, b: Seq<GraphNode<V>>) -> bool {
    &&& a.len() == b.len()
    &&& forall|i: int| 0 <= i < a.len() ==> same_node(#[trigger] a[i], b[i])
}

/// The local gradients a rule computes for a node name only parents of that node.
pub open spec fn reports_parents<V, L: Fn(&ComputationGraph<V>, NodeId, &V) -> Result<Vec<(NodeId, V)>>>(
    local: L,
) -> bool {
    forall|g: &ComputationGraph<V>, id: NodeId, up: &V, out: Result<Vec<(NodeId, V)>>|
        #[trigger] call_ensures(local, (g, id, up), out) ==> (out is Ok ==> forall|k: int|
            0 <= k < out->Ok_0@.len() ==> is_parent_of(
                g.spec_nodes(),
                id@ as int,
                (#[trigger] out->Ok_0@[k]).0@ as int,
            ))
}

/// Adding up gradients never fails.
pub open spec fn combine_total<V, A: Fn(&V, &V) -> Result<V>>(combine: A) -> bool {
    forall|a: &V, b: &V, r: Result<V>| #[trigger] call_ensures(combine, (a, b), r) ==> r is Ok
}

/// `e` is an error one of the three rules gave.
pub open spec fn rule_error<V, S, L, A>(seed: S, local: L, combine: A, e: RustGradError) -> bool where
    S: Fn(&V) -> Result<V>,
    L: Fn(&ComputationGraph<V>, NodeId, &V) -> Result<Vec<(NodeId, V)>>,
    A: Fn(&V, &V) -> Result<V>,
 {
    ||| exists|v: &V| #[trigger] call_ensures(seed, (v,), Err::<V, RustGradError>(e))
    ||| exists|g: &ComputationGraph<V>, id: NodeId, up: &V| #[trigger] call_ensures(
        local,
        (g, id, up),
        Err::<Vec<(NodeId, V)>, RustGradError>(e),
    )
    ||| exists|a: &V, b: &V| #[trigger] call_ensures(combine, (a, b), Err::<V, RustGradError>(e))
}

/// The gradients the nodes hold, in node order.
pub open spec fn grads_of<V>(g: Seq<GraphNode<V>>) -> Seq<Option<V>> {
    Seq::new(g.len(), |i: int| g[i].spec_grad())
}

/// `g` has the nodes of `g0`, holding the gradients `grads`.
pub open spec fn holds_grads<V>(g: ComputationGraph<V>, g0: Seq<GraphNode<V>>, grads: Seq<Option<V>>) -> bool {
    same_structure(g0, g.spec_nodes()) && grads_of(g.spec_nodes()) == grads
}

/// The gradients right after seeding: the seed on the output, none elsewhere.
pub open spec fn seeded<V>(n: nat, output: int, seed_value: V) -> Seq<Option<V>> {
    Seq::new(n, |i: int| if i == output { Some(seed_value) } else { None })
}

/// Adding one reported contribution `(parent, value)`: a parent that exists
/// and requires a gradient stores the value when it holds none, and otherwise
/// the sum `combine` makes of its gradient and the value; nothing else changes.
pub open spec fn adds_contribution<V, A: Fn(&V, &V) -> Result<V>>(
    g0: Seq<GraphNode<V>>,
    before: Seq<Option<V>>,
    item: (NodeId, V),
    combine: A,
    after: Seq<Option<V>>,
) -> bool {
    let p = item.0@ as int;
    if p < g0.len() && g0[p].spec_requires_grad() {
        match before[p] {
            None => after == before.update(p, Some(item.1)),
            Some(e) => exists|v: V|
                #[trigger] call_ensures(combine, (&e, &item.1), Ok::<V, RustGradError>(v)) && after
                    == before.update(p, Some(v)),
        }
    } else {
        after == before
    }
}

/// Each step of `trace` adds the next of `items`.
pub open spec fn adds_trace<V, A: Fn(&V, &V) -> Result<V>>(
    g0: Seq<GraphNode<V>>,
    items: Seq<(NodeId, V)>,
    trace: Seq<Seq<Option<V>>>,
    combine: A,
) -> bool {
    &&& trace.len() == items.len() + 1
    &&& forall|j: int|
        0 <= j < items.len() ==> adds_contribution(g0, #[trigger] trace[j], items[j], combine, trace[j + 1])
}

/// Adding the contributions `items`, one after another, takes the gradients
/// `before` to `after`.
pub open spec fn adds_contributions<V, A: Fn(&V, &V) -> Result<V>>(
    g0: Seq<GraphNode<V>>,
    before: Seq<Option<V>>,
    items: Seq<(NodeId, V)>,
    combine: A,
    after: Seq<Option<V>>,
) -> bool {
    exists|trace: Seq<Seq<Option<V>>>|
        #[trigger] adds_trace(g0, items, trace, combine) && trace[0] == before && trace.last() == after
}

/// Visiting node `id` takes the gradients `before` to `after`: a node that
/// requires a gradient and holds one gives it to `local`, and the
/// contributions `local` reports for its parents are added; any other node
/// is passed over.
pub open spec fn visits<V, L, A>(
    g0: Seq<GraphNode<V>>,
    id: NodeId,
    before: Seq<Option<V>>,
    local: L,
    combine: A,
    after: Seq<Option<V>>,
) -> bool where
    L: Fn(&ComputationGraph<V>, NodeId, &V) -> Result<Vec<(NodeId, V)>>,
    A: Fn(&V, &V) -> Result<V>,
 {
    let i = id@ as int;
    if g0[i].spec_requires_grad() && before[i] is Some {
        exists|g: ComputationGraph<V>, c: Vec<(NodeId, V)>|
            #[trigger] call_ensures(
                local,
                (&g, id, &before[i]->Some_0),
                Ok::<Vec<(NodeId, V)>, RustGradError>(c),
            ) && holds_grads(g, g0, before) && adds_contributions(g0, before, c@, combine, after)
    } else {
        after == before
    }
}

/// Each step of `trace` visits the next node of `order`, from the last one back.
pub open spec fn walk_trace<V, L, A>(
    g0: Seq<GraphNode<V>>,
    order: Seq<NodeId>,
    trace: Seq<Seq<Option<V>>>,
    local: L,
    combine: A,
) -> bool where
    L: Fn(&ComputationGraph<V>, NodeId, &V) -> Result<Vec<(NodeId, V)>>,
    A: Fn(&V, &V) -> Result<V>,
 {
    &&& 1 <= trace.len() <= order.len() + 1
    &&& forall|t: int|
        0 <= t < trace.len() - 1 ==> visits(
            g0,
            order[order.len() - 1 - t],
            #[trigger] trace[t],
            local,
            combine,
            trace[t + 1],
        )
}

/// Visiting the last `k` nodes of `order`, from the last one back, takes the
/// gradients `start` to `after`.
pub open spec fn walks<V, L, A>(
    g0: Seq<GraphNode<V>>,
    order: Seq<NodeId>,
    k: nat,
    start: Seq<Option<V>>,
    local: L,
    combine: A,
    after: Seq<Option<V>>,
) -> bool where
    L: Fn(&ComputationGraph<V>, NodeId, &V) -> Result<Vec<(NodeId, V)>>,
    A: Fn(&V, &V) -> Result<V>,
 {
    exists|trace: Seq<Seq<Option<V>>>|
        #[trigger] walk_trace(g0, order, trace, local, combine) && trace.len() == k + 1 && trace[0]
            == start && trace.last() == after
}

/// Adding a contribution fails: the parent requires a gradient and holds
/// one, and `combine` gives `e` for it and the contribution.
pub open spec fn fails_adding<V, A: Fn(&V, &V) -> Result<V>>(
    g0: Seq<GraphNode<V>>,
    before: Seq<Option<V>>,
    item: (NodeId, V),
    combine: A,
    e: RustGradError,
) -> bool {
    let p = item.0@ as int;
    &&& p < g0.len()
    &&& g0[p].spec_requires_grad()
    &&& before[p] is Some
    &&& call_ensures(combine, (&before[p]->Some_0, &item.1), Err::<V, RustGradError>(e))
}

/// Visiting node `id` from the gradients `before` fails with `e`: `local`
/// gives `e` for it, or adding one of the contributions it reports does.
pub open spec fn fails_visiting<V, L, A>(
    g0: Seq<GraphNode<V>>,
    id: NodeId,
    before: Seq<Option<V>>,
    local: L,
    combine: A,
    e: RustGradError,
) -> bool where
    L: Fn(&ComputationGraph<V>, NodeId, &V) -> Result<Vec<(NodeId, V)>>,
    A: Fn(&V, &V) -> Result<V>,
 {
    let i = id@ as int;
    &&& g0[i].spec_requires_grad()
    &&& before[i] is Some
    &&& {
        ||| exists|g: ComputationGraph<V>|
            #[trigger] call_ensures(
                local,
                (&g, id, &before[i]->Some_0),
                Err::<Vec<(NodeId, V)>, RustGradError>(e),
            ) && holds_grads(g, g0, before)
        ||| exists|g: ComputationGraph<V>, c: Vec<(NodeId, V)>, j: int, mid: Seq<Option<V>>|
            #[trigger] call_ensures(
                local,
                (&g, id, &before[i]->Some_0),
                Ok::<Vec<(NodeId, V)>, RustGradError>(c),
            ) && holds_grads(g, g0, before) && 0 <= j < c@.len() && #[trigger] adds_contributions(
                g0,
                before,
                c@.take(j),
                combine,
                mid,
            ) && fails_adding(g0, mid, c@[j], combine, e)
    }
}

/// The backward pass from `output` fails with `e`: seeding fails, or the
/// walk reaches some node of `order` and visiting it fails.
pub open spec fn backward_fails<V, S, L, A>(
    g0: Seq<GraphNode<V>>,
    output: int,
    order: Seq<NodeId>,
    seed: S,
    local: L,
    combine: A,
    e: RustGradError,
) -> bool where
    S: Fn(&V) -> Result<V>,
    L: Fn(&ComputationGraph<V>, NodeId, &V) -> Result<Vec<(NodeId, V)>>,
    A: Fn(&V, &V) -> Result<V>,
 {
    ||| call_ensures(seed, (&g0[output].spec_value(),), Err::<V, RustGradError>(e))
    ||| exists|v: V, k: nat, mid: Seq<Option<V>>|
        call_ensures(seed, (&g0[output].spec_value(),), Ok::<V, RustGradError>(v)) && k
            < order.len() && #[trigger] walks(
            g0,
            order,
            k,
            seeded(g0.len(), output, v),
            local,
            combine,
            mid,
        ) && fails_visiting(g0, order[order.len() - k - 1], mid, local, combine, e)
}

/// `local` succeeds whenever it is given one of the nodes listed in `order`.
pub open spec fn local_ok_on<V, L: Fn(&ComputationGraph<V>, NodeId, &V) -> Result<Vec<(NodeId, V)>>>(
    local: L,
    order: Seq<NodeId>,
) -> bool {
    forall|g: &ComputationGraph<V>, id: NodeId, up: &V, out: Result<Vec<(NodeId, V)>>|
        #[trigger] call_ensures(local, (g, id, up), out) && lists(order, id@ as int) ==> out is Ok
}

/// `seed` succeeds on `value`.
pub open spec fn seed_ok_on<V, S: Fn(&V) -> Result<V>>(seed: S, value: V) -> bool {
    forall|r: Result<V>| #[trigger] call_ensures(seed, (&value,), r) ==> r is Ok
}

/// One more visit extends a walk.
proof fn lemma_walk_push<V, L, A>(
    g0: Seq<GraphNode<V>>,
    order: Seq<NodeId>,
    trace: Seq<Seq<Option<V>>>,
    local: L,
    combine: A,
    after: Seq<Option<V>>,
) where
    L: Fn(&ComputationGraph<V>, NodeId, &V) -> Result<Vec<(NodeId, V)>>,
    A: Fn(&V, &V) -> Result<V>,

    requires
        walk_trace(g0, order, trace, local, combine),
        trace.len() <= order.len(),
        visits(g0, order[order.len() - trace.len()], trace.last(), local, combine, after),
    ensures
        walk_trace(g0, order, trace.push(after), local, combine),
{
    let next = trace.push(after);
    assert forall|t: int| 0 <= t < next.len() - 1 implies visits(
        g0,
        order[order.len() - 1 - t],
        #[trigger] next[t],
        local,
        combine,
        next[t + 1],
    ) by {
        if t < trace.len() - 1 {
            assert(next[t] == trace[t]);
            assert(next[t + 1] == trace[t + 1]);
        } else {
            assert(next[t] == trace.last());
            assert(next[t + 1] == after);
        }
    }
}

/// One more contribution extends the contributions added.
proof fn lemma_adds_push<V, A: Fn(&V, &V) -> Result<V>>(
    g0: Seq<GraphNode<V>>,
    items: Seq<(NodeId, V)>,
    j: int,
    trace: Seq<Seq<Option<V>>>,
    combine: A,
    after: Seq<Option<V>>,
)
    requires
        0 <= j < items.len(),
        adds_trace(g0, items.take(j), trace, combine),
        adds_contribution(g0, trace.last(), items[j], combine, after),
    ensures
        adds_trace(g0, items.take(j + 1), trace.push(after), combine),
{
    let next = trace.push(after);
    let its = items.take(j + 1);
    assert forall|m: int| 0 <= m < its.len() implies adds_contribution(
        g0,
        #[trigger] next[m],
        its[m],
        combine,
        next[m + 1],
    ) by {
        assert(its[m] == items[m]);
        if m < j {
            assert(items.take(j)[m] == items[m]);
            assert(next[m] == trace[m]);
            assert(next[m + 1] == trace[m + 1]);
        } else {
            assert(next[m] == trace.last());
        }
    }
}

/// Changing only gradients keeps a graph well formed.
proof fn lemma_same_structure_well_formed<V>(a: ComputationGraph<V>, b: ComputationGraph<V>)
    requires
        a.well_formed(),
        same_structure(a.spec_nodes(), b.spec_nodes()),
    ensures
        b.well_formed(),
{
    let ga = a.spec_nodes();
    let gb = b.spec_nodes();
    assert forall|i: int| 0 <= i < gb.len() implies (#[trigger] gb[i]).spec_id()@ == i by {
        assert(same_node(ga[i], gb[i]));
    }
    assert forall|i: int, k: int| 0 <= i < gb.len() && 0 <= k < gb[i].spec_parents().len() implies (
    #[trigger] gb[i].spec_parents()[k])@ < i by {
        assert(same_node(ga[i], gb[i]));
        assert(ga[i].spec_parents()[k] == gb[i].spec_parents()[k]);
    }
}

/// Along a path of parent links the indices never grow, when every parent
/// precedes its child.
proof fn lemma_path_descends<V>(g: Seq<GraphNode<V>>, p: Seq<int>, k: int)
    requires
        parents_precede(g),
        is_path(g, p),
        0 <= k < p.len(),
    ensures
        p[k] <= p[0],
    decreases k,
{
    if k > 0 {
        lemma_path_descends(g, p, k - 1);
        assert(link(g, p, k - 1));
        let j = choose|j: int|
            0 <= j < g[p[k - 1]].spec_parents().len() && (#[trigger] g[p[k - 1]].spec_parents()[j])@
                == p[k];
    }
}

/// A dependency of a node never has a larger index than the node.
proof fn lemma_dependency_le<V>(g: Seq<GraphNode<V>>, from: int, to: int)
    requires
        parents_precede(g),
        depends_on(g, from, to),
    ensures
        to <= from,
{
    let p = choose|p: Seq<int>| #[trigger] is_path(g, p) && p[0] == from && p.last() == to;
    lemma_path_descends(g, p, p.len() - 1);
}

/// Every dependency of `output` is a node of the graph.
pub open spec fn dependencies_exist<V>(g: Seq<GraphNode<V>>, output: int) -> bool {
    forall|x: int| #[trigger] depends_on(g, output, x) ==> x < g.len()
}

impl<V> ComputationGraph<V> {
    /// Runs reverse-mode differentiation from `output`.
    ///
    /// Old gradients are cleared, the output is seeded with the gradient
    /// `seed` makes of its value, and the nodes are walked from the output
    /// back to its dependencies. Each node that holds a gradient and requires
    /// one passes it to `local`, which computes the gradients of its parents;
    /// each parent that requires a gradient adds its share with `combine`.
    /// The gradients left behind are those of that walk (`walks`) over the
    /// dependency-first order taken from the last node back, and an error is
    /// the one seeding, or the rule or addition at some visited node, gave
    /// (`backward_fails`).
    pub fn backward<S, L, A>(&mut self, output: NodeId, seed: S, local: L, combine: A) -> (r: Result<
        (),
    >) where
        S: Fn(&V) -> Result<V>,
        L: Fn(&ComputationGraph<V>, NodeId, &V) -> Result<Vec<(NodeId, V)>>,
        A: Fn(&V, &V) -> Result<V>,

        requires
            forall|v: &V| #[trigger] call_requires(seed, (v,)),
            forall|g: &ComputationGraph<V>, id: NodeId, up: &V| #[trigger] call_requires(
                local,
                (g, id, up),
            ),
            forall|a: &V, b: &V| #[trigger] call_requires(combine, (a, b)),
        ensures
            same_structure(old(self).spec_nodes(), final(self).spec_nodes()),
            old(self).well_formed() ==> final(self).well_formed(),
            output@ >= old(self).spec_nodes().len() ==> r is Err && is_missing_node_error(
                r->Err_0,
                "node"@,
                output@ as nat,
            ),
            !dependencies_exist(old(self).spec_nodes(), output@ as int) ==> {
                &&& r is Err
                &&& final(self).spec_nodes() == old(self).spec_nodes()
                &&& exists|x: int|
                    x >= old(self).spec_nodes().len() && #[trigger] depends_on(
                        old(self).spec_nodes(),
                        output@ as int,
                        x,
                    ) && is_missing_node_error(r->Err_0, "node"@, x as nat)
            },
            r is Ok && old(self).well_formed() && reports_parents(local) ==> exists|v: V|
                call_ensures(
                    seed,
                    (&old(self).spec_nodes()[output@ as int].spec_value(),),
                    Ok::<V, RustGradError>(v),
                ) && final(self).spec_nodes()[output@ as int].spec_grad() == Some(v),
            r is Ok ==> forall|x: int|
                0 <= x < final(self).spec_nodes().len() && (
                #[trigger] final(self).spec_nodes()[x]).spec_grad() is Some ==> x == output@
                    || old(self).spec_nodes()[x].spec_requires_grad(),
            r is Ok && reports_parents(local) ==> forall|x: int|
                0 <= x < final(self).spec_nodes().len() && (
                #[trigger] final(self).spec_nodes()[x]).spec_grad() is Some ==> x == output@ || (
                depends_on(old(self).spec_nodes(), output@ as int, x)
                    && old(self).spec_nodes()[x].spec_requires_grad()),
            dependencies_exist(old(self).spec_nodes(), output@ as int) ==> (r matches Err(e)
                ==> rule_error(seed, local, combine, e)),
            r is Ok ==> exists|v: V|
                call_ensures(
                    seed,
                    (&old(self).spec_nodes()[output@ as int].spec_value(),),
                    Ok::<V, RustGradError>(v),
                ) && walks(
                    old(self).spec_nodes(),
                    dependency_walk(old(self).spec_nodes(), output)->Ok_0,
                    dependency_walk(old(self).spec_nodes(), output)->Ok_0.len(),
                    seeded(old(self).spec_nodes().len(), output@ as int, v),
                    local,
                    combine,
                    grads_of(final(self).spec_nodes()),
                ),
            dependencies_exist(old(self).spec_nodes(), output@ as int) ==> (r matches Err(e)
                ==> backward_fails(
                old(self).spec_nodes(),
                output@ as int,
                dependency_walk(old(self).spec_nodes(), output)->Ok_0,
                seed,
                local,
                combine,
                e,
            )),
            dependencies_exist(old(self).spec_nodes(), output@ as int) && seed_ok_on(
                seed,
                old(self).spec_nodes()[output@ as int].spec_value(),
            ) && local_ok_on(local, dependency_walk(old(self).spec_nodes(), output)->Ok_0)
                && combine_total(combine) ==> r is Ok,
    {
        let ghost g0 = self.spec_nodes();
        let ghost wf = self.well_formed();
        let ghost rp = reports_parents(local);
        let order = match self.topological_order(output) {
            Ok(o) => o,
            Err(e) => {
                return Err(e);
            },
        };
        proof {
            lemma_depends_on_self(g0, output@ as int);
            assert(output@ < g0.len());
        }
        self.clear_gradients();
        let out = output.index();
        let seed_grad = match seed(self.nodes[out].value()) {
            Ok(v) => v,
            Err(e) => {
                return Err(e);
            },
        };
        let ghost seed_value = seed_grad;
        self.nodes[out].set_grad(seed_grad);
        let n = self.nodes.len();
        let ghost start = seeded(n as nat, out as int, seed_value);
        let ghost mut trace: Seq<Seq<Option<V>>> = seq![start];
        proof {
            assert(grads_of(self.spec_nodes()) =~= start);
            assert forall|i: int| 0 <= i < order@.len() implies (#[trigger] order@[i])@ < n
                && depends_on(g0, output@ as int, order@[i]@ as int) by {
                assert(lists(order@, order@[i]@ as int));
            }
            assert forall|i: int| 0 <= i < g0.len() implies same_node(
                #[trigger] g0[i],
                self.spec_nodes()[i],
            ) by {}
        }
        let mut k = order.len();
        while k > 0
            invariant
                n == self.spec_nodes().len(),
                out == output@,
                out < n,
                k <= order@.len(),
                same_structure(g0, self.spec_nodes()),
                g0 == old(self).spec_nodes(),
                wf == old(self).well_formed(),
                wf ==> parents_precede(g0),
                dependencies_exist(g0, output@ as int),
                forall|i: int|
                    0 <= i < order@.len() ==> (#[trigger] order@[i])@ < n && depends_on(
                        g0,
                        output@ as int,
                        order@[i]@ as int,
                    ),
                call_ensures(seed, (&g0[out as int].spec_value(),), Ok::<V, RustGradError>(seed_value)),
                wf && rp ==> self.spec_nodes()[out as int].spec_grad() == Some(seed_value),
                forall|x: int|
                    0 <= x < n && (#[trigger] self.spec_nodes()[x]).spec_grad() is Some ==> x == out
                        || g0[x].spec_requires_grad(),
                rp ==> forall|x: int|
                    0 <= x < n && (#[trigger] self.spec_nodes()[x]).spec_grad() is Some ==> x == out
                        || (depends_on(g0, output@ as int, x) && g0[x].spec_requires_grad()),
                forall|g: &ComputationGraph<V>, id: NodeId, up: &V| #[trigger] call_requires(
                    local,
                    (g, id, up),
                ),
                forall|a: &V, b: &V| #[trigger] call_requires(combine, (a, b)),
                rp == reports_parents(local),
                order@ == dependency_walk(g0, output)->Ok_0,
                start == seeded(g0.len(), output@ as int, seed_value),
                walk_trace(g0, order@, trace, local, combine),
                trace.len() == order@.len() - k + 1,
                trace[0] == start,
                trace.last() == grads_of(self.spec_nodes()),
            decreases k,
        {
            let ghost t = (order@.len() - k) as nat;
            let ghost before = grads_of(self.spec_nodes());
            k -= 1;
            let id = order[k];
            let i = id.index();
            proof {
                assert(order@.len() - (t + 1) == k);
                assert(lists(order@, id@ as int));
            }
            if !self.nodes[i].requires_grad() {
                proof {
                    assert(visits(g0, id, before, local, combine, before));
                    lemma_walk_push(g0, order@, trace, local, combine, before);
                    trace = trace.push(before);
                }
                continue;
            }
            proof {
                if wf {
                    lemma_same_structure_well_formed(*old(self), *self);
                }
            }
            let ghost graph_now = *self;
            let contributions = match self.nodes[i].grad() {
                None => {
                    proof {
                        assert(before[i as int] is None);
                        assert(visits(g0, id, before, local, combine, before));
                        lemma_walk_push(g0, order@, trace, local, combine, before);
                        trace = trace.push(before);
                    }
                    continue;
                },
                Some(grad) => {
                    let ghost up = *grad;
                    proof {
                        assert(before[i as int] == Some(up));
                        assert(holds_grads(graph_now, g0, before));
                    }
                    match local(&*self, id, grad) {
                        Ok(c) => c,
                        Err(e) => {
                            proof {
                                assert(walks(g0, order@, t, start, local, combine, before));
                                assert(fails_visiting(g0, id, before, local, combine, e));
                                assert(backward_fails(
                                    g0,
                                    output@ as int,
                                    order@,
                                    seed,
                                    local,
                                    combine,
                                    e,
                                ));
                            }
                            return Err(e);
                        },
                    }
                },
            };
            proof {
                assert(depends_on(g0, output@ as int, i as int));
                if wf {
                    lemma_dependency_le(g0, output@ as int, i as int);
                }
                assert(contributions@.take(0) =~= Seq::<(NodeId, V)>::empty());
            }
            let ghost listed = contributions@;
            let ghost cv = contributions;
            let ghost mut atrace: Seq<Seq<Option<V>>> = seq![before];
            for item in it: contributions
                invariant
                    n == self.spec_nodes().len(),
                    out == output@,
                    out < n,
                    i < n,
                    i == id@,
                    wf ==> i <= out,
                    depends_on(g0, output@ as int, i as int),
                    same_structure(g0, self.spec_nodes()),
                    g0 == old(self).spec_nodes(),
                    wf == old(self).well_formed(),
                    wf ==> parents_precede(g0),
                    dependencies_exist(g0, output@ as int),
                    rp ==> forall|j: int| 0 <= j < listed.len() ==> is_parent_of(
                        g0,
                        i as int,
                        (#[trigger] listed[j]).0@ as int,
                    ),
                    it.seq() == listed,
                    listed == cv@,
                    wf && rp ==> self.spec_nodes()[out as int].spec_grad() == Some(seed_value),
                    forall|x: int|
                        0 <= x < n && (#[trigger] self.spec_nodes()[x]).spec_grad() is Some ==> x
                            == out || g0[x].spec_requires_grad(),
                    rp ==> forall|x: int|
                        0 <= x < n && (#[trigger] self.spec_nodes()[x]).spec_grad() is Some ==> x
                            == out || (depends_on(g0, output@ as int, x)
                            && g0[x].spec_requires_grad()),
                    forall|a: &V, b: &V| #[trigger] call_requires(combine, (a, b)),
                    g0[i as int].spec_requires_grad(),
                    before[i as int] is Some,
                    call_ensures(
                        local,
                        (&graph_now, id, &before[i as int]->Some_0),
                        Ok::<Vec<(NodeId, V)>, RustGradError>(cv),
                    ),
                    holds_grads(graph_now, g0, before),
                    adds_trace(g0, listed.take(it.index() as int), atrace, combine),
                    atrace[0] == before,
                    atrace.last() == grads_of(self.spec_nodes()),
                    walk_trace(g0, order@, trace, local, combine),
                    trace.len() == t + 1,
                    trace[0] == start,
                    trace.last() == before,
                    order@.len() - (t + 1) == k,
                    k < order@.len(),
                    id == order@[k as int],
                    order@ == dependency_walk(g0, output)->Ok_0,
                    call_ensures(seed, (&g0[out as int].spec_value(),), Ok::<V, RustGradError>(seed_value)),
                    start == seeded(g0.len(), output@ as int, seed_value),
                    t < order@.len(),
            {
                let ghost j = it.index() as int;
                let ghost mid = grads_of(self.spec_nodes());
                let (parent, parent_grad) = item;
                let p = parent.index();
                proof {
                    assert(listed[j] == (parent, parent_grad));
                    assert(listed.take(j + 1).drop_last() =~= listed.take(j));
                    assert(listed.take(j + 1).last() == listed[j]);
                }
                if p < self.nodes.len() && self.nodes[p].requires_grad() {
                    proof {
                        if rp {
                            assert(is_parent_of(g0, i as int, p as int));
                            let kk = choose|kk: int|
                                0 <= kk < g0[i as int].spec_parents().len() && (
                                #[trigger] g0[i as int].spec_parents()[kk])@ == p as int;
                            if wf {
                                assert(p < i);
                            }
                            lemma_depends_on_extend(g0, output@ as int, i as int, p as int);
                        }
                    }
                    let ghost before_nodes = self.spec_nodes();
                    let accumulated = self.nodes[p].accumulate_grad(parent_grad, &combine);
                    proof {
                        assert forall|x: int| 0 <= x < g0.len() implies same_node(
                            #[trigger] g0[x],
                            self.spec_nodes()[x],
                        ) by {
                            assert(same_node(g0[x], before_nodes[x]));
                        }
                        assert(grads_of(self.spec_nodes()) =~= mid.update(
                            p as int,
                            self.spec_nodes()[p as int].spec_grad(),
                        ));
                        if wf {
                            lemma_same_structure_well_formed(*old(self), *self);
                        }
                    }
                    if let Err(err) = accumulated {
                        proof {
                            assert(listed.take(j) == cv@.take(j));
                            assert(adds_contributions(g0, before, cv@.take(j), combine, mid));
                            assert(walks(g0, order@, t, start, local, combine, before));
                            assert(fails_adding(g0, mid, cv@[j], combine, err));
                            assert(fails_visiting(g0, id, before, local, combine, err));
                            assert(backward_fails(
                                g0,
                                output@ as int,
                                order@,
                                seed,
                                local,
                                combine,
                                err,
                            ));
                        }
                        return Err(err);
                    }
                    proof {
                        assert(adds_contribution(g0, mid, listed[j], combine, grads_of(self.spec_nodes())));
                    }
                } else {
                    proof {
                        assert(adds_contribution(g0, mid, listed[j], combine, mid));
                    }
                }
                proof {
                    lemma_adds_push(g0, listed, j, atrace, combine, grads_of(self.spec_nodes()));
                    atrace = atrace.push(grads_of(self.spec_nodes()));
                }
            }
            proof {
                assert(listed.take(listed.len() as int) =~= listed);
                assert(visits(g0, id, before, local, combine, grads_of(self.spec_nodes())));
                assert(adds_contributions(g0, before, listed, combine, grads_of(self.spec_nodes())));
                assert(visits(g0, id, before, local, combine, grads_of(self.spec_nodes())));
                lemma_walk_push(g0, order@, trace, local, combine, grads_of(self.spec_nodes()));
                trace = trace.push(grads_of(self.spec_nodes()));
            }
        }
        proof {
            if wf {
                lemma_same_structure_well_formed(*old(self), *self);
            }
        }
        Ok(())
    }
}
} // verus!
