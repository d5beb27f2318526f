use vstd::prelude::*;
use dashmap::DashMap;
use crate::error::{FunctionError, RenderFault, TemplateError};
use crate::node::{
    eval_all, eval_args, eval_node, explains, explains_all, finished, lemma_nodes_view,
    nodes_view, resolved, Node, Observed, TemplateNode,
};
use crate::store::{call_function, lookup_variable, texts, TemplateFunction};

verus! {

broadcast use vstd::std_specs::vec::axiom_vec_index_decreases;

/// The model of a render result.
pub open spec fn result_view(r: Result<String, TemplateError>) -> Result<Seq<char>, RenderFault> {
    match r {
        Ok(s) => Ok(s@),
        Err(e) => Err(e@),
    }
}

/// The model of what a lookup found.
pub open spec fn found_view(found: Option<String>) -> Option<Seq<char>> {
    match found {
        Some(v) => Some(v@),
        None => None,
    }
}

/// The model of what the registry gave for a call.
pub open spec fn call_view(out: Option<Result<String, FunctionError>>) -> Option<
    Result<Seq<char>, Seq<char>>,
> {
    match out {
        None => None,
        Some(Ok(s)) => Some(Ok(s@)),
        Some(Err(e)) => Some(Err(e@)),
    }
}

/// The result for variable `name` once the lookup has found `found`: its value, or
/// `VariableNotFound(name)` when nothing was bound.
pub fn resolve_variable(name: &String, found: Option<String>) -> (r: Result<String, TemplateError>)
    ensures
        result_view(r) == resolved(name@, found_view(found)),
{
    match found {
        Some(v) => Ok(v),
        None => Err(TemplateError::VariableNotFound(name.clone())),
    }
}

/// The result for a call of `name` once the registry has given `out`:
/// `FunctionNotImplemented(name)` when no function was registered, the function's text, or its
/// error as `TemplateError::Function`.
pub fn finish_call(name: &String, out: Option<Result<String, FunctionError>>) -> (r: Result<
    String,
    TemplateError,
>)
    ensures
        result_view(r) == finished(name@, call_view(out)),
{
    match out {
        None => Err(TemplateError::FunctionNotImplemented(name.clone())),
        Some(Ok(s)) => Ok(s),
        Some(Err(e)) => Err(TemplateError::Function(e)),
    }
}

/// Once a prefix of the arguments fails, every longer prefix fails the same way.
proof fn lemma_args_failure_persists(args: Seq<Node>, k: int, j: int, obs: Seq<Observed>)
    requires
        0 <= k <= j <= args.len(),
        eval_args(args.take(k), obs) matches Some((Err(_), _)),
    ensures
        eval_args(args.take(j), obs) == eval_args(args.take(k), obs),
    decreases j - k,
{
    if j > k {
        lemma_args_failure_persists(args, k, j - 1, obs);
        assert(args.take(j).drop_last() =~= args.take(j - 1));
    }
}

/// Once a prefix of a node sequence fails, every longer prefix fails the same way.
proof fn lemma_all_failure_persists(nodes: Seq<Node>, k: int, j: int, obs: Seq<Observed>)
    requires
        0 <= k <= j <= nodes.len(),
        eval_all(nodes.take(k), obs) matches Some((Err(_), _)),
    ensures
        eval_all(nodes.take(j), obs) == eval_all(nodes.take(k), obs),
    decreases j - k,
{
    if j > k {
        lemma_all_failure_persists(nodes, k, j - 1, obs);
        assert(nodes.take(j).drop_last() =~= nodes.take(j - 1));
    }
}

/// Renders `node` and returns, beside the result, the outside answers that it received, in
/// order: rendering against them gives the result and uses exactly them.
fn render_ref(
    node: &TemplateNode,
    vars: &DashMap<String, String>,
    funcs: &DashMap<String, TemplateFunction>,
) -> (out: (Result<String, TemplateError>, Ghost<Seq<Observed>>))
    ensures
        forall|k: Seq<Observed>|
            #[trigger] eval_node(node@, out.1@ + k) == Some((result_view(out.0), k)),
    decreases node,
{
    match node {
        TemplateNode::RawText(text)
        | TemplateNode::String(text)
        | TemplateNode::Float(text)
        | TemplateNode::Number(text) => {
            let ghost t = Seq::<Observed>::empty();
            assert forall|k: Seq<Observed>| #[trigger] (t + k) == k by {
                assert(t + k =~= k);
            }
            (Ok(text.clone()), Ghost(t))
        },
        TemplateNode::Variable(name) => {
            let found = lookup_variable(vars, name);
            let ghost t = seq![Observed::Lookup(name@, found_view(found))];
            let r = resolve_variable(name, found);
            assert forall|k: Seq<Observed>|
                #[trigger] eval_node(node@, t + k) == Some((result_view(r), k)) by {
                assert((t + k)[0] == t[0]);
                assert((t + k).drop_first() =~= k);
            }
            (r, Ghost(t))
        },
        TemplateNode::Function(name, args) => {
            let ghost av = nodes_view(args@);
            proof {
                lemma_nodes_view(args@);
                assert(decreases_to!(*node => *args));
            }
            let mut vals: Vec<String> = Vec::new();
            let ghost mut tr = Seq::<Observed>::empty();
            let mut i: usize = 0;
            assert forall|k: Seq<Observed>|
                #[trigger] eval_args(av.take(0), tr + k) == Some(
                    (Ok::<Seq<Seq<char>>, RenderFault>(texts(vals@)), k),
                ) by {
                assert(av.take(0) =~= Seq::<Node>::empty());
                assert(tr + k =~= k);
                assert(texts(vals@) =~= Seq::<Seq<char>>::empty());
            }
            while i < args.len()
                invariant
                    i <= args.len(),
                    decreases_to!(*node => *args),
                    av == nodes_view(args@),
                    av.len() == args.len(),
                    forall|j: int| 0 <= j < args.len() ==> #[trigger] av[j] == args@[j]@,
                    node@ == Node::Function(name@, av),
                    forall|k: Seq<Observed>|
                        #[trigger] eval_args(av.take(i as int), tr + k) == Some(
                            (Ok::<Seq<Seq<char>>, RenderFault>(texts(vals@)), k),
                        ),
                decreases args.len() - i,
            {
                proof {
                    assert(decreases_to!(*args => args[i as int]));
                }
                let (r, Ghost(ti)) = render_ref(&args[i], vars, funcs);
                assert(av.take(i + 1).drop_last() =~= av.take(i as int));
                assert(av.take(i + 1).last() == av[i as int]);
                match r {
                    Err(e) => {
                        let ghost t = tr + ti;
                        assert forall|k: Seq<Observed>|
                            #[trigger] eval_node(node@, t + k) == Some(
                                (result_view(Err::<String, TemplateError>(e)), k),
                            ) by {
                            assert(t + k =~= tr + (ti + k));
                            assert(eval_args(av.take(i as int), tr + (ti + k)) == Some(
                                (Ok::<Seq<Seq<char>>, RenderFault>(texts(vals@)), ti + k),
                            ));
                            assert(eval_node(av[i as int], ti + k) == Some(
                                (Err::<Seq<char>, RenderFault>(e@), k),
                            ));
                            lemma_args_failure_persists(av, i + 1, args.len() as int, t + k);
                            assert(av.take(args.len() as int) =~= av);
                        }
                        return (Err(e), Ghost(t));
                    },
                    Ok(s) => {
                        let ghost prev = vals@;
                        let ghost ptr = tr;
                        vals.push(s);
                        assert(texts(vals@) =~= texts(prev).push(s@));
                        proof {
                            tr = ptr + ti;
                        }
                        assert forall|k: Seq<Observed>|
                            #[trigger] eval_args(av.take(i + 1), tr + k) == Some(
                                (Ok::<Seq<Seq<char>>, RenderFault>(texts(vals@)), k),
                            ) by {
                            assert(tr + k =~= ptr + (ti + k));
                            assert(eval_args(av.take(i as int), ptr + (ti + k)) == Some(
                                (Ok::<Seq<Seq<char>>, RenderFault>(texts(prev)), ti + k),
                            ));
                            assert(eval_node(av[i as int], ti + k) == Some(
                                (Ok::<Seq<char>, RenderFault>(s@), k),
                            ));
                        }
                    },
                }
                i = i + 1;
            }
            assert(av.take(args.len() as int) =~= av);
            let out = call_function(funcs, name, &vals);
            let ghost entry = Observed::Call(name@, texts(vals@), call_view(out));
            let ghost t = tr + seq![entry];
            let r = finish_call(name, out);
            assert forall|k: Seq<Observed>|
                #[trigger] eval_node(node@, t + k) == Some((result_view(r), k)) by {
                assert(t + k =~= tr + (seq![entry] + k));
                assert(eval_args(av, tr + (seq![entry] + k)) == Some(
                    (Ok::<Seq<Seq<char>>, RenderFault>(texts(vals@)), seq![entry] + k),
                ));
                assert((seq![entry] + k)[0] == entry);
                assert((seq![entry] + k).drop_first() =~= k);
            }
            (r, Ghost(t))
        },
    }
}

/// Renders one node to a fresh string. The result is what rendering gives against the
/// answers that the variable map and the function registry actually gave, asked in order.
pub fn render_node(
    node: TemplateNode,
    vars: &DashMap<String, String>,
    funcs: &DashMap<String, TemplateFunction>,
) -> (r: Result<String, TemplateError>)
    ensures
        explains(node@, result_view(r)),
{
    let (r, Ghost(t)) = render_ref(&node, vars, funcs);
    assert(t + Seq::<Observed>::empty() =~= t);
    assert(eval_node(node@, t + Seq::<Observed>::empty()) == Some(
        (result_view(r), Seq::<Observed>::empty()),
    ));
    r
}

/// Renders one node onto the end of `res`; on failure `res` is left as it was.
pub fn render_nodes(
    res: &mut String,
    node: TemplateNode,
    vars: &DashMap<String, String>,
    funcs: &DashMap<String, TemplateFunction>,
) -> (r: Result<(), TemplateError>)
    ensures
        r is Ok ==> exists|s: Seq<char>|
            final(res)@ == old(res)@ + s && #[trigger] explains(
                node@,
                Ok::<Seq<char>, RenderFault>(s),
            ),
        r matches Err(e) ==> final(res)@ == old(res)@ && explains(
            node@,
            Err::<Seq<char>, RenderFault>(e@),
        ),
{
    let (out, Ghost(t)) = render_ref(&node, vars, funcs);
    assert(t + Seq::<Observed>::empty() =~= t);
    assert(eval_node(node@, t + Seq::<Observed>::empty()) == Some(
        (result_view(out), Seq::<Observed>::empty()),
    ));
    match out {
        Ok(s) => {
            res.append(s.as_str());
            assert(explains(node@, Ok::<Seq<char>, RenderFault>(s@)));
            Ok(())
        },
        Err(e) => Err(e),
    }
}

/// Renders a node sequence in order into one string, stopping at the first failure. The
/// result is what rendering gives against the answers actually received, asked in order.
pub fn render(
    nodes: &Vec<TemplateNode>,
    vars: &DashMap<String, String>,
    funcs: &DashMap<String, TemplateFunction>,
) -> (r: Result<String, TemplateError>)
    ensures
        explains_all(nodes_view(nodes@), result_view(r)),
{
    let ghost nv = nodes_view(nodes@);
    proof {
        lemma_nodes_view(nodes@);
    }
    let mut out = String::new();
    let ghost mut tr = Seq::<Observed>::empty();
    let mut i: usize = 0;
    assert(nv.take(0) =~= Seq::<Node>::empty());
    assert(tr + Seq::<Observed>::empty() =~= tr);
    while i < nodes.len()
        invariant
            i <= nodes.len(),
            nv == nodes_view(nodes@),
            nv.len() == nodes.len(),
            forall|j: int| 0 <= j < nodes.len() ==> #[trigger] nv[j] == nodes@[j]@,
            forall|k: Seq<Observed>|
                #[trigger] eval_all(nv.take(i as int), tr + k) == Some(
                    (Ok::<Seq<char>, RenderFault>(out@), k),
                ),
        decreases nodes.len() - i,
    {
        assert(nv.take(i + 1).drop_last() =~= nv.take(i as int));
        assert(nv.take(i + 1).last() == nv[i as int]);
        let (r, Ghost(ti)) = render_ref(&nodes[i], vars, funcs);
        match r {
            Ok(s) => {
                let ghost prev = out@;
                let ghost ptr = tr;
                out.append(s.as_str());
                proof {
                    tr = ptr + ti;
                }
                assert forall|k: Seq<Observed>|
                    #[trigger] eval_all(nv.take(i + 1), tr + k) == Some(
                        (Ok::<Seq<char>, RenderFault>(out@), k),
                    ) by {
                    assert(tr + k =~= ptr + (ti + k));
                    assert(eval_all(nv.take(i as int), ptr + (ti + k)) == Some(
                        (Ok::<Seq<char>, RenderFault>(prev), ti + k),
                    ));
                    assert(eval_node(nv[i as int], ti + k) == Some(
                        (Ok::<Seq<char>, RenderFault>(s@), k),
                    ));
                }
            },
            Err(e) => {
                let ghost t = tr + ti;
                proof {
                    let k = Seq::<Observed>::empty();
                    assert(t + k =~= tr + (ti + k));
                    assert(eval_all(nv.take(i as int), tr + (ti + k)) == Some(
                        (Ok::<Seq<char>, RenderFault>(out@), ti + k),
                    ));
                    assert(eval_node(nv[i as int], ti + k) == Some(
                        (Err::<Seq<char>, RenderFault>(e@), k),
                    ));
                    lemma_all_failure_persists(nv, i + 1, nodes.len() as int, t + k);
                    assert(nv.take(nodes.len() as int) =~= nv);
                    assert(t + k =~= t);
                    assert(eval_all(nv, t) == Some(
                        (result_view(Err::<String, TemplateError>(e)), Seq::<Observed>::empty()),
                    ));
                }
                return Err(e);
            },
        }
        i = i + 1;
    }
    proof {
        let k = Seq::<Observed>::empty();
        assert(nv.take(nodes.len() as int) =~= nv);
        assert(tr + k =~= tr);
        assert(eval_all(nv, tr) == Some((result_view(Ok::<String, TemplateError>(out)), k)));
    }
    Ok(out)
}

/// A variable for which the lookup finds nothing fails with its own name, and the render
/// asks nothing more.
pub proof fn lemma_missing_variable(x: Seq<char>, k: Seq<Observed>)
    ensures
        eval_node(Node::Variable(x), seq![Observed::Lookup(x, None)] + k) == Some(
            (Err::<Seq<char>, RenderFault>(RenderFault::VariableNotFound(x)), k),
        ),
{
    let obs = seq![Observed::Lookup(x, None)] + k;
    assert(obs[0] == Observed::Lookup(x, None));
    assert(obs.drop_first() =~= k);
}

/// A call whose arguments all render, and for which the registry has no function, fails with
/// the function's name; the registry is asked only after the arguments have rendered, and on
/// exactly their texts.
pub proof fn lemma_missing_function(
    f: Seq<char>,
    args: Seq<Node>,
    obs: Seq<Observed>,
    vs: Seq<Seq<char>>,
    k: Seq<Observed>,
)
    requires
        eval_args(args, obs) == Some(
            (Ok::<Seq<Seq<char>>, RenderFault>(vs), seq![Observed::Call(f, vs, None)] + k),
        ),
    ensures
        eval_node(Node::Function(f, args), obs) == Some(
            (Err::<Seq<char>, RenderFault>(RenderFault::FunctionNotImplemented(f)), k),
        ),
{
    let rest = seq![Observed::Call(f, vs, None)] + k;
    assert(rest[0] == Observed::Call(f, vs, None));
    assert(rest.drop_first() =~= k);
}

/// When an argument fails, the call fails with that argument's failure and the registry is
/// never asked.
pub proof fn lemma_failed_argument(
    f: Seq<char>,
    args: Seq<Node>,
    obs: Seq<Observed>,
    e: RenderFault,
    k: Seq<Observed>,
)
    requires
        eval_args(args, obs) == Some((Err::<Seq<Seq<char>>, RenderFault>(e), k)),
    ensures
        eval_node(Node::Function(f, args), obs) == Some((Err::<Seq<char>, RenderFault>(e), k)),
{
}

/// In `f(g(x))` the variable is looked up first, then `g` is called on its value, then `f`
/// on what `g` returned, and the result is what `f` gave.
pub proof fn lemma_nested_calls(
    f: Seq<char>,
    g: Seq<char>,
    x: Seq<char>,
    v: Seq<char>,
    w: Seq<char>,
    out: Option<Result<Seq<char>, Seq<char>>>,
)
    ensures
        eval_node(
            Node::Function(f, seq![Node::Function(g, seq![Node::Variable(x)])]),
            seq![
                Observed::Lookup(x, Some(v)),
                Observed::Call(g, seq![v], Some(Ok(w))),
                Observed::Call(f, seq![w], out),
            ],
        ) == Some((finished(f, out), Seq::<Observed>::empty())),
{
    let obs = seq![
        Observed::Lookup(x, Some(v)),
        Observed::Call(g, seq![v], Some(Ok(w))),
        Observed::Call(f, seq![w], out),
    ];
    let r1 = obs.drop_first();
    let r2 = r1.drop_first();
    let r3 = r2.drop_first();
    assert(r1 =~= seq![Observed::Call(g, seq![v], Some(Ok(w))), Observed::Call(f, seq![w], out)]);
    assert(r2 =~= seq![Observed::Call(f, seq![w], out)]);
    assert(r3 =~= Seq::<Observed>::empty());
    let inner = seq![Node::Variable(x)];
    let outer = seq![Node::Function(g, inner)];
    assert(inner.drop_last() =~= Seq::<Node>::empty());
    assert(outer.drop_last() =~= Seq::<Node>::empty());
    assert(inner.last() == Node::Variable(x));
    assert(outer.last() == Node::Function(g, inner));
    assert(Seq::<Seq<char>>::empty().push(v) =~= seq![v]);
    assert(Seq::<Seq<char>>::empty().push(w) =~= seq![w]);
    assert(eval_node(Node::Variable(x), obs) == Some((Ok::<Seq<char>, RenderFault>(v), r1)));
    assert(eval_args(Seq::<Node>::empty(), obs) == Some(
        (Ok::<Seq<Seq<char>>, RenderFault>(Seq::empty()), obs),
    ));
    assert(eval_args(inner, obs) == Some((Ok::<Seq<Seq<char>>, RenderFault>(seq![v]), r1)));
    assert(eval_node(Node::Function(g, inner), obs) == Some((Ok::<Seq<char>, RenderFault>(w), r2)));
    assert(eval_args(outer, obs) == Some((Ok::<Seq<Seq<char>>, RenderFault>(seq![w]), r2)));
}

/// Rendering is a function of the tree and of the answers received: two renderings of equal
/// trees that receive the same answers give the same result.
pub proof fn lemma_render_repeatable(
    a: Node,
    b: Node,
    obs: Seq<Observed>,
    ra: Result<Seq<char>, RenderFault>,
    rb: Result<Seq<char>, RenderFault>,
)
    requires
        a == b,
        eval_node(a, obs) == Some((ra, Seq::<Observed>::empty())),
        eval_node(b, obs) == Some((rb, Seq::<Observed>::empty())),
    ensures
        ra == rb,
{
}

} // verus!
