use vstd::prelude::*;
use crate::error::RenderFault;

verus! {

/// One unit of a parsed template.
#[derive(Debug, PartialEq, Eq)]
pub enum TemplateNode {
    /// Text outside any expression, kept verbatim.
    RawText(String),
    /// A quoted argument, without its quotes.
    String(String),
    /// A numeric argument with one decimal point, kept as written.
    Float(String),
    /// A numeric argument of digits only, kept as written.
    Number(String),
    /// A reference to a binding, by name.
    Variable(String),
    /// A call of a registered function on the given arguments.
    Function(String, Vec<TemplateNode>),
}

/// The model of a node: its texts as character sequences.
pub enum Node {
    RawText(Seq<char>),
    String(Seq<char>),
    Float(Seq<char>),
    Number(Seq<char>),
    Variable(Seq<char>),
    Function(Seq<char>, Seq<Node>),
}

/// The model of a node.
pub open spec fn node_view(n: TemplateNode) -> Node
    decreases n,
{
    match n {
        TemplateNode::RawText(t) => Node::RawText(t@),
        TemplateNode::String(t) => Node::String(t@),
        TemplateNode::Float(t) => Node::Float(t@),
        TemplateNode::Number(t) => Node::Number(t@),
        TemplateNode::Variable(x) => Node::Variable(x@),
        TemplateNode::Function(f, args) => Node::Function(f@, nodes_view(args@)),
    }
}

/// The models of a node sequence, in order.
pub open spec fn nodes_view(ns: Seq<TemplateNode>) -> Seq<Node>
    decreases ns,
{
    if ns.len() == 0 {
        Seq::empty()
    } else {
        nodes_view(ns.drop_last()).push(node_view(ns.last()))
    }
}

/// The models of a sequence are the models of its nodes, position by position.
pub proof fn lemma_nodes_view(ns: Seq<TemplateNode>)
    ensures
        nodes_view(ns).len() == ns.len(),
        forall|i: int| 0 <= i < ns.len() ==> #[trigger] nodes_view(ns)[i] == node_view(ns[i]),
    decreases ns.len(),
{
    if ns.len() > 0 {
        lemma_nodes_view(ns.drop_last());
    }
}

impl View for TemplateNode {
    type V = Node;

    open spec fn view(&self) -> Node {
        node_view(*self)
    }
}

/// One outside answer that a render received, in the order received: the value found for a
/// variable name, or what the registry gave for a call of a function name on rendered
/// arguments (`None` when no function was registered; `Err` holds the function's message).
pub enum Observed {
    Lookup(Seq<char>, Option<Seq<char>>),
    Call(Seq<char>, Seq<Seq<char>>, Option<Result<Seq<char>, Seq<char>>>),
}

/// The result for variable `x` when the lookup found `found`.
pub open spec fn resolved(x: Seq<char>, found: Option<Seq<char>>) -> Result<Seq<char>, RenderFault> {
    match found {
        Some(v) => Ok(v),
        None => Err(RenderFault::VariableNotFound(x)),
    }
}

/// The result for a call of `f` when the registry gave `out`.
pub open spec fn finished(f: Seq<char>, out: Option<Result<Seq<char>, Seq<char>>>) -> Result<
    Seq<char>,
    RenderFault,
> {
    match out {
        None => Err(RenderFault::FunctionNotImplemented(f)),
        Some(Ok(s)) => Ok(s),
        Some(Err(m)) => Err(RenderFault::Function(m)),
    }
}

/// Rendering `n` against the answers `obs`, read from the front: the result and the answers
/// left over, or `None` when `obs` does not answer the questions that `n` asks, in order.
/// Literals ask nothing; a variable asks for its name; a call first renders its arguments left
/// to right, stops at the first failure, and only then asks for its function on exactly the
/// rendered arguments.
pub open spec fn eval_node(n: Node, obs: Seq<Observed>) -> Option<
    (Result<Seq<char>, RenderFault>, Seq<Observed>),
>
    decreases n,
{
    match n {
        Node::RawText(t) => Some((Ok(t), obs)),
        Node::String(t) => Some((Ok(t), obs)),
        Node::Float(t) => Some((Ok(t), obs)),
        Node::Number(t) => Some((Ok(t), obs)),
        Node::Variable(x) => if obs.len() > 0 {
            match obs[0] {
                Observed::Lookup(y, found) => if y == x {
                    Some((resolved(x, found), obs.drop_first()))
                } else {
                    None
                },
                Observed::Call(_, _, _) => None,
            }
        } else {
            None
        },
        Node::Function(f, args) => match eval_args(args, obs) {
            None => None,
            Some((Err(e), rest)) => Some((Err(e), rest)),
            Some((Ok(vs), rest)) => if rest.len() > 0 {
                match rest[0] {
                    Observed::Call(g, ws, out) => if g == f && ws == vs {
                        Some((finished(f, out), rest.drop_first()))
                    } else {
                        None
                    },
                    Observed::Lookup(_, _) => None,
                }
            } else {
                None
            },
        },
    }
}

/// Rendering arguments left to right against `obs`: their texts, or the first failure.
pub open spec fn eval_args(args: Seq<Node>, obs: Seq<Observed>) -> Option<
    (Result<Seq<Seq<char>>, RenderFault>, Seq<Observed>),
>
    decreases args,
{
    if args.len() == 0 {
        Some((Ok(Seq::empty()), obs))
    } else {
        match eval_args(args.drop_last(), obs) {
            None => None,
            Some((Err(e), rest)) => Some((Err(e), rest)),
            Some((Ok(vs), rest)) => match eval_node(args.last(), rest) {
                None => None,
                Some((Err(e), rest2)) => Some((Err(e), rest2)),
                Some((Ok(v), rest2)) => Some((Ok(vs.push(v)), rest2)),
            },
        }
    }
}

/// Rendering a node sequence left to right against `obs`: the concatenated texts, or the
/// first failure.
pub open spec fn eval_all(nodes: Seq<Node>, obs: Seq<Observed>) -> Option<
    (Result<Seq<char>, RenderFault>, Seq<Observed>),
>
    decreases nodes.len(),
{
    if nodes.len() == 0 {
        Some((Ok(Seq::empty()), obs))
    } else {
        match eval_all(nodes.drop_last(), obs) {
            None => None,
            Some((Err(e), rest)) => Some((Err(e), rest)),
            Some((Ok(t), rest)) => match eval_node(nodes.last(), rest) {
                None => None,
                Some((Err(e), rest2)) => Some((Err(e), rest2)),
                Some((Ok(s), rest2)) => Some((Ok(t + s), rest2)),
            },
        }
    }
}

/// Some sequence of outside answers, all of them used, renders `n` to `v`.
pub open spec fn explains(n: Node, v: Result<Seq<char>, RenderFault>) -> bool {
    exists|obs: Seq<Observed>| #[trigger] eval_node(n, obs) == Some((v, Seq::<Observed>::empty()))
}

/// Some sequence of outside answers, all of them used, renders `nodes` to `v`.
pub open spec fn explains_all(nodes: Seq<Node>, v: Result<Seq<char>, RenderFault>) -> bool {
    exists|obs: Seq<Observed>| #[trigger] eval_all(nodes, obs) == Some((v, Seq::<Observed>::empty()))
}

} // verus!
