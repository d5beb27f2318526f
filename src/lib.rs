//! A small template engine: `parser::parse` turns text with delimited expressions (variables
//! and nested function calls) into a node tree, and `render` evaluates that tree against a
//! map of variable bindings and a registry of functions.
use vstd::prelude::*;

pub mod error;
pub mod node;
pub mod parser;
pub mod render;
pub mod store;

use crate::node::{eval_all, eval_node, explains_all, Node, Observed};
use crate::parser::{
    find_char, find_from, is_ident, is_ident_char, is_space, matches_at, parse_expr, parse_from,
    parse_template, raw_text, trim_end, trim_start, ParseFault,
};
use crate::error::RenderFault;

verus! {

/// Without an occurrence of `p` from `i` on, `find_from` finds nothing.
proof fn lemma_find_nothing(t: Seq<char>, p: Seq<char>, i: int)
    requires
        0 <= i,
        forall|j: int| i <= j ==> !#[trigger] matches_at(t, p, j),
    ensures
        find_from(t, p, i) is None,
    decreases t.len() - i,
{
    if !(i >= t.len() || i + p.len() > t.len()) {
        assert(!matches_at(t, p, i));
        lemma_find_nothing(t, p, i + 1);
    }
}

/// `find_from` gives the first occurrence from `i` on.
proof fn lemma_find_at(t: Seq<char>, p: Seq<char>, i: int, k: int)
    requires
        0 <= i <= k,
        p.len() > 0,
        matches_at(t, p, k),
        forall|j: int| i <= j < k ==> !#[trigger] matches_at(t, p, j),
    ensures
        find_from(t, p, i) == Some(k),
    decreases k - i,
{
    if i < k {
        lemma_find_at(t, p, i + 1, k);
    }
}

/// Without `ch` in `[i, e)`, `find_char` finds nothing.
proof fn lemma_find_char_none(t: Seq<char>, ch: char, i: int, e: int)
    requires
        forall|j: int| i <= j < e ==> #[trigger] t[j] != ch,
    ensures
        find_char(t, ch, i, e) is None,
    decreases e - i,
{
    if i < e {
        lemma_find_char_none(t, ch, i + 1, e);
    }
}

/// Leading whitespace up to `p` is skipped.
proof fn lemma_trim_start_to(t: Seq<char>, lo: int, p: int, hi: int)
    requires
        0 <= lo <= p < hi <= t.len(),
        forall|j: int| lo <= j < p ==> is_space(#[trigger] t[j]),
        !is_space(t[p]),
    ensures
        trim_start(t, lo, hi) == p,
    decreases p - lo,
{
    if lo < p {
        lemma_trim_start_to(t, lo + 1, p, hi);
    }
}

/// Trailing whitespace back to `q` is skipped.
proof fn lemma_trim_end_to(t: Seq<char>, lo: int, q: int, hi: int)
    requires
        0 <= lo < q <= hi <= t.len(),
        forall|j: int| q <= j < hi ==> is_space(#[trigger] t[j]),
        !is_space(t[q - 1]),
    ensures
        trim_end(t, lo, hi) == q,
    decreases hi - q,
{
    if q < hi {
        lemma_trim_end_to(t, lo, q, hi - 1);
    }
}

/// Rendering a concatenation renders the first part, then the second on the answers left.
proof fn lemma_eval_all_append(
    p: Seq<Node>,
    q: Seq<Node>,
    obs: Seq<Observed>,
    s1: Seq<char>,
    r1: Seq<Observed>,
    s2: Seq<char>,
    r2: Seq<Observed>,
)
    requires
        eval_all(p, obs) == Some((Ok::<Seq<char>, RenderFault>(s1), r1)),
        eval_all(q, r1) == Some((Ok::<Seq<char>, RenderFault>(s2), r2)),
    ensures
        eval_all(p + q, obs) == Some((Ok::<Seq<char>, RenderFault>(s1 + s2), r2)),
    decreases q.len(),
{
    if q.len() == 0 {
        assert(p + q =~= p);
        assert(s1 + s2 =~= s1);
    } else {
        assert((p + q).drop_last() =~= p + q.drop_last());
        assert((p + q).last() == q.last());
        match eval_all(q.drop_last(), r1) {
            Some((Ok(sm), rm)) => {
                lemma_eval_all_append(p, q.drop_last(), obs, s1, r1, sm, rm);
                match eval_node(q.last(), rm) {
                    Some((Ok(v), _)) => {
                        assert(s1 + sm + v =~= s1 + (sm + v));
                    },
                    _ => {},
                }
            },
            _ => {},
        }
    }
}

/// The text nodes of a range render to the range's text and ask nothing.
proof fn lemma_eval_raw_text(t: Seq<char>, i: int, k: int, obs: Seq<Observed>)
    requires
        0 <= i <= k <= t.len(),
    ensures
        eval_all(raw_text(t, i, k), obs) == Some(
            (Ok::<Seq<char>, RenderFault>(t.subrange(i, k)), obs),
        ),
{
    assert(eval_all(Seq::<Node>::empty(), obs) == Some(
        (Ok::<Seq<char>, RenderFault>(Seq::empty()), obs),
    ));
    if i < k {
        let ns = raw_text(t, i, k);
        assert(ns.drop_last() =~= Seq::<Node>::empty());
        assert(Seq::<char>::empty() + t.subrange(i, k) =~= t.subrange(i, k));
    } else {
        assert(t.subrange(i, k) =~= Seq::<char>::empty());
    }
}

/// A template in which the opening delimiter never occurs parses to its text alone, which
/// renders back to the template without asking the variable map or the registry anything.
pub proof fn lemma_literal_template(t: Seq<char>, o: Seq<char>, c: Seq<char>)
    requires
        o.len() > 0,
        c.len() > 0,
        forall|j: int| !#[trigger] matches_at(t, o, j),
    ensures
        parse_template(t, o, c) matches Ok(nodes) && (forall|obs: Seq<Observed>|
            #[trigger] eval_all(nodes, obs) == Some((Ok::<Seq<char>, RenderFault>(t), obs)))
            && (forall|v: Result<Seq<char>, RenderFault>|
            #[trigger] explains_all(nodes, v) ==> v == Ok::<Seq<char>, RenderFault>(t)),
{
    lemma_find_nothing(t, o, 0);
    let nodes = raw_text(t, 0, t.len() as int);
    assert(parse_template(t, o, c) == Ok::<Seq<Node>, ParseFault>(nodes));
    assert(t.subrange(0, t.len() as int) =~= t);
    assert forall|obs: Seq<Observed>|
        #[trigger] eval_all(nodes, obs) == Some((Ok::<Seq<char>, RenderFault>(t), obs)) by {
        lemma_eval_raw_text(t, 0, t.len() as int, obs);
    }
}

/// A template that holds one expression, a variable with whitespace around it, renders to the
/// text before it, the value found for the variable verbatim, and the text after it; the
/// render asks for that variable and nothing else.
pub proof fn lemma_single_variable_template(
    a: Seq<char>,
    o: Seq<char>,
    w1: Seq<char>,
    x: Seq<char>,
    w2: Seq<char>,
    c: Seq<char>,
    b: Seq<char>,
)
    requires
        o.len() > 0,
        c.len() > 0,
        is_ident(x, 0, x.len() as int),
        forall|j: int| 0 <= j < w1.len() ==> is_space(#[trigger] w1[j]),
        forall|j: int| 0 <= j < w2.len() ==> is_space(#[trigger] w2[j]),
        forall|j: int|
            0 <= j < a.len() ==> !#[trigger] matches_at(a + o + w1 + x + w2 + c + b, o, j),
        forall|j: int|
            a.len() + o.len() <= j < a.len() + o.len() + w1.len() + x.len() + w2.len()
                ==> !#[trigger] matches_at(a + o + w1 + x + w2 + c + b, c, j),
        forall|j: int|
            a.len() + o.len() + w1.len() + x.len() + w2.len() + c.len() <= j
                ==> !#[trigger] matches_at(a + o + w1 + x + w2 + c + b, o, j),
    ensures
        parse_template(a + o + w1 + x + w2 + c + b, o, c) matches Ok(nodes) && forall|
            v: Seq<char>,
        |
            #[trigger] eval_all(nodes, seq![Observed::Lookup(x, Some(v))]) == Some(
                (Ok::<Seq<char>, RenderFault>(a + v + b), Seq::<Observed>::empty()),
            ),
{
    let t = a + o + w1 + x + w2 + c + b;
    let body: int = (a.len() + o.len()) as int;
    let xa: int = body + w1.len();
    let xb: int = xa + x.len();
    let m: int = xb + w2.len();
    let after: int = m + c.len();
    assert(t.subrange(a.len() as int, body) =~= o);
    assert(t.subrange(m, after) =~= c);
    assert(t.subrange(xa, xb) =~= x);
    assert(t.subrange(0, a.len() as int) =~= a);
    assert(t.subrange(after, t.len() as int) =~= b);
    assert forall|j: int| 0 <= j < x.len() implies t[xa + j] == x[j] by {
        assert(t.subrange(xa, xb)[j] == t[xa + j]);
    }
    assert forall|j: int| body <= j < xa implies is_space(#[trigger] t[j]) by {
        assert(t[j] == w1[j - body]);
    }
    assert forall|j: int| xb <= j < m implies is_space(#[trigger] t[j]) by {
        assert(t[j] == w2[j - xb]);
    }
    lemma_find_at(t, o, 0, a.len() as int);
    lemma_find_at(t, c, body, m);
    lemma_find_nothing(t, o, after);
    // the expression between the delimiters is the variable
    assert(t[xa] == x[0]);
    assert(t[xb - 1] == x[x.len() - 1]);
    assert(is_ident_char(x[x.len() - 1]));
    lemma_trim_start_to(t, body, xa, m);
    lemma_trim_end_to(t, xa, xb, m);
    assert forall|j: int| xa <= j < xb implies #[trigger] t[j] != '.' && t[j] != '(' by {
        assert(t[xa + (j - xa)] == x[j - xa]);
        assert(is_ident_char(x[j - xa]));
    }
    lemma_find_char_none(t, '.', xa, xb);
    lemma_find_char_none(t, '(', xa, xb);
    assert(is_ident(t, xa, xb)) by {
        assert forall|j: int| xa <= j < xb implies is_ident_char(#[trigger] t[j]) by {
            assert(t[xa + (j - xa)] == x[j - xa]);
            assert(is_ident_char(x[j - xa]));
        }
    }
    assert(parse_expr(t, body, m) == Some(Node::Variable(x)));
    assert(parse_from(t, o, c, after) == Ok::<Seq<Node>, ParseFault>(
        raw_text(t, after, t.len() as int),
    ));
    let one = seq![Node::Variable(x)];
    let nodes = raw_text(t, 0, a.len() as int) + one + raw_text(t, after, t.len() as int);
    assert(parse_template(t, o, c) == Ok::<Seq<Node>, ParseFault>(nodes));
    // and it renders to the value found between the texts
    assert forall|v: Seq<char>|
        #[trigger] eval_all(nodes, seq![Observed::Lookup(x, Some(v))]) == Some(
            (Ok::<Seq<char>, RenderFault>(a + v + b), Seq::<Observed>::empty()),
        ) by {
        let obs = seq![Observed::Lookup(x, Some(v))];
        let e = Seq::<Observed>::empty();
        lemma_eval_raw_text(t, 0, a.len() as int, obs);
        lemma_eval_raw_text(t, after, t.len() as int, e);
        assert(one.drop_last() =~= Seq::<Node>::empty());
        assert(obs.drop_first() =~= e);
        assert(eval_node(Node::Variable(x), obs) == Some((Ok::<Seq<char>, RenderFault>(v), e)));
        assert(Seq::<char>::empty() + v =~= v);
        assert(one.last() == Node::Variable(x));
        assert(eval_all(Seq::<Node>::empty(), obs) == Some(
            (Ok::<Seq<char>, RenderFault>(Seq::empty()), obs),
        ));
        assert(eval_all(one, obs) == Some((Ok::<Seq<char>, RenderFault>(v), e)));
        lemma_eval_all_append(raw_text(t, 0, a.len() as int), one, obs, a, obs, v, e);
        lemma_eval_all_append(
            raw_text(t, 0, a.len() as int) + one,
            raw_text(t, after, t.len() as int),
            obs,
            a + v,
            e,
            b,
            e,
        );
    }
}

} // verus!
