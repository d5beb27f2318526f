use vstd::prelude::*;
use crate::node::{nodes_view, Node, TemplateNode};
use vstd::string::*;
use vstd::std_specs::iter::IteratorSpec;

verus! {

/// Why a template could not be parsed.
#[derive(Clone, Debug, PartialEq, Eq)]
pub enum ParseError {
    /// An opening delimiter at this character position has no closing delimiter after it.
    Unterminated(usize),
    /// The text between a pair of delimiters is not a well-formed expression.
    InvalidExpression(String),
}

/// The model of a parse failure.
pub enum ParseFault {
    Unterminated(int),
    InvalidExpression(Seq<char>),
}

impl View for ParseError {
    type V = ParseFault;

    open spec fn view(&self) -> ParseFault {
        match self {
            ParseError::Unterminated(p) => ParseFault::Unterminated(*p as int),
            ParseError::InvalidExpression(s) => ParseFault::InvalidExpression(s@),
        }
    }
}

pub open spec fn is_space(c: char) -> bool {
    c == ' ' || c == '\t' || c == '\n' || c == '\r'
}

pub open spec fn is_digit(c: char) -> bool {
    '0' <= c <= '9'
}

pub open spec fn is_ident_start(c: char) -> bool {
    ('a' <= c <= 'z') || ('A' <= c <= 'Z') || c == '_'
}

pub open spec fn is_ident_char(c: char) -> bool {
    is_ident_start(c) || is_digit(c)
}

/// `p` occurs in `t` at position `i`.
pub open spec fn matches_at(t: Seq<char>, p: Seq<char>, i: int) -> bool {
    0 <= i && i + p.len() <= t.len() && t.subrange(i, i + p.len()) == p
}

/// The first position at or after `i` where `p` occurs in `t`.
pub open spec fn find_from(t: Seq<char>, p: Seq<char>, i: int) -> Option<int>
    decreases t.len() - i,
{
    if i < 0 || i >= t.len() || i + p.len() > t.len() {
        None
    } else if matches_at(t, p, i) {
        Some(i)
    } else {
        find_from(t, p, i + 1)
    }
}

/// The first position in `[i, e)` that holds `c`.
pub open spec fn find_char(t: Seq<char>, c: char, i: int, e: int) -> Option<int>
    decreases e - i,
{
    if i >= e {
        None
    } else if t[i] == c {
        Some(i)
    } else {
        find_char(t, c, i + 1, e)
    }
}

/// The start of `[lo, hi)` past its leading whitespace.
pub open spec fn trim_start(t: Seq<char>, lo: int, hi: int) -> int
    decreases hi - lo,
{
    if lo < hi && is_space(t[lo]) {
        trim_start(t, lo + 1, hi)
    } else {
        lo
    }
}

/// The end of `[lo, hi)` before its trailing whitespace.
pub open spec fn trim_end(t: Seq<char>, lo: int, hi: int) -> int
    decreases hi - lo,
{
    if lo < hi && is_space(t[hi - 1]) {
        trim_end(t, lo, hi - 1)
    } else {
        hi
    }
}

/// Every character of `[a, b)` is a decimal digit (true of an empty range).
pub open spec fn all_digits(t: Seq<char>, a: int, b: int) -> bool {
    forall|j: int| a <= j < b ==> is_digit(#[trigger] t[j])
}

/// `[a, b)` is an identifier: a letter or `_`, then letters, digits or `_`.
pub open spec fn is_ident(t: Seq<char>, a: int, b: int) -> bool {
    a < b && is_ident_start(t[a]) && forall|j: int| a <= j < b ==> is_ident_char(#[trigger] t[j])
}

/// `[a, b)` is digits with exactly one decimal point among them.
pub open spec fn is_decimal(t: Seq<char>, a: int, b: int) -> bool {
    match find_char(t, '.', a, b) {
        Some(d) => b - a >= 2 && all_digits(t, a, d) && all_digits(t, d + 1, b),
        None => false,
    }
}

/// `[a, b)` is a quoted string: a `"` at each end and none between.
pub open spec fn is_quoted(t: Seq<char>, a: int, b: int) -> bool {
    b - a >= 2 && t[a] == '"' && t[b - 1] == '"' && find_char(t, '"', a + 1, b - 1) is None
}

/// The expression that `[lo, hi)` of `t` holds, surrounding whitespace ignored.
pub open spec fn parse_expr(t: Seq<char>, lo: int, hi: int) -> Option<Node>
    decreases hi - lo, 0int,
{
    let a = trim_start(t, lo, hi);
    let b = trim_end(t, a, hi);
    if lo < 0 || hi > t.len() || a >= b {
        None
    } else if t[a] == '"' {
        if is_quoted(t, a, b) {
            Some(Node::String(t.subrange(a + 1, b - 1)))
        } else {
            None
        }
    } else if all_digits(t, a, b) {
        Some(Node::Number(t.subrange(a, b)))
    } else if is_decimal(t, a, b) {
        Some(Node::Float(t.subrange(a, b)))
    } else {
        match find_char(t, '(', a, b) {
            Some(k) => {
                let nb = trim_end(t, a, k);
                if lo <= a <= k < b - 1 && b <= hi && is_ident(t, a, nb) && t[b - 1] == ')' {
                    if trim_start(t, k + 1, b - 1) == b - 1 {
                        Some(Node::Function(t.subrange(a, nb), Seq::empty()))
                    } else {
                        match parse_args(t, k + 1, b - 1) {
                            Some(args) => Some(Node::Function(t.subrange(a, nb), args)),
                            None => None,
                        }
                    }
                } else {
                    None
                }
            },
            None => if is_ident(t, a, b) {
                Some(Node::Variable(t.subrange(a, b)))
            } else {
                None
            },
        }
    }
}

/// Where the argument scanned from `i` ends: at the first comma that stands outside
/// parentheses and quotes, or at `e`. Scanning starts at parenthesis depth `depth`, inside a
/// quoted string when `quoted`; `None` when a `)` has no `(` or the range ends inside
/// parentheses or quotes.
pub open spec fn arg_end(t: Seq<char>, i: int, e: int, depth: nat, quoted: bool) -> Option<int>
    decreases e - i,
{
    if i >= e {
        if depth == 0 && !quoted {
            Some(e)
        } else {
            None
        }
    } else {
        let c = t[i];
        if quoted {
            arg_end(t, i + 1, e, depth, c != '"')
        } else if c == '"' {
            arg_end(t, i + 1, e, depth, true)
        } else if c == '(' {
            arg_end(t, i + 1, e, depth + 1, false)
        } else if c == ')' {
            if depth == 0 {
                None
            } else {
                arg_end(t, i + 1, e, (depth - 1) as nat, false)
            }
        } else if c == ',' && depth == 0 {
            Some(i)
        } else {
            arg_end(t, i + 1, e, depth, false)
        }
    }
}

/// An end that `arg_end` gives lies in `[i, e]`.
proof fn lemma_arg_end(t: Seq<char>, i: int, e: int, depth: nat, quoted: bool)
    requires
        i <= e,
    ensures
        arg_end(t, i, e, depth, quoted) matches Some(j) ==> i <= j <= e,
    decreases e - i,
{
    if i < e {
        let c = t[i];
        if quoted {
            lemma_arg_end(t, i + 1, e, depth, c != '"');
        } else if c == '"' {
            lemma_arg_end(t, i + 1, e, depth, true);
        } else if c == '(' {
            lemma_arg_end(t, i + 1, e, depth + 1, false);
        } else if c == ')' {
            if depth != 0 {
                lemma_arg_end(t, i + 1, e, (depth - 1) as nat, false);
            }
        } else if !(c == ',' && depth == 0) {
            lemma_arg_end(t, i + 1, e, depth, false);
        }
    }
}

/// The arguments in `[s, e)`: the range split at each comma outside parentheses and quotes,
/// each piece parsed as an expression.
pub open spec fn parse_args(t: Seq<char>, s: int, e: int) -> Option<Seq<Node>>
    decreases e - s, 1int,
    via parse_args_decreases
{
    if s > e {
        None
    } else {
        match arg_end(t, s, e, 0, false) {
            None => None,
            Some(j) => match parse_expr(t, s, j) {
                None => None,
                Some(n) => if j >= e {
                    Some(seq![n])
                } else {
                    match parse_args(t, j + 1, e) {
                        None => None,
                        Some(rest) => Some(seq![n] + rest),
                    }
                },
            },
        }
    }
}

#[via_fn]
proof fn parse_args_decreases(t: Seq<char>, s: int, e: int) {
    if s <= e {
        lemma_arg_end(t, s, e, 0, false);
    }
}

/// The text nodes for `[i, k)`: none when the range is empty.
pub open spec fn raw_text(t: Seq<char>, i: int, k: int) -> Seq<Node> {
    if i < k {
        seq![Node::RawText(t.subrange(i, k))]
    } else {
        Seq::empty()
    }
}

/// The nodes of `t` from position `i` on, with the delimiters `o` and `c`.
pub open spec fn parse_from(t: Seq<char>, o: Seq<char>, c: Seq<char>, i: int) -> Result<
    Seq<Node>,
    ParseFault,
>
    decreases t.len() - i,
    via parse_from_decreases
{
    if i < 0 || i > t.len() || o.len() == 0 || c.len() == 0 {
        Ok(Seq::empty())
    } else {
        match find_from(t, o, i) {
            None => Ok(raw_text(t, i, t.len() as int)),
            Some(k) => {
                let body = k + o.len();
                match find_from(t, c, body) {
                    None => Err(ParseFault::Unterminated(k)),
                    Some(m) => match parse_expr(t, body, m) {
                        None => Err(ParseFault::InvalidExpression(t.subrange(body, m))),
                        Some(n) => match parse_from(t, o, c, m + c.len()) {
                            Err(e) => Err(e),
                            Ok(rest) => Ok(raw_text(t, i, k) + seq![n] + rest),
                        },
                    },
                }
            },
        }
    }
}

#[via_fn]
proof fn parse_from_decreases(t: Seq<char>, o: Seq<char>, c: Seq<char>, i: int) {
    if 0 <= i <= t.len() && o.len() > 0 && c.len() > 0 {
        lemma_find_from(t, o, i);
        if let Some(k) = find_from(t, o, i) {
            lemma_find_from(t, c, k + o.len());
        }
    }
}

/// The nodes of a whole template with the delimiters `o` and `c`.
pub open spec fn parse_template(t: Seq<char>, o: Seq<char>, c: Seq<char>) -> Result<
    Seq<Node>,
    ParseFault,
> {
    parse_from(t, o, c, 0)
}

/// A position that `find_from` gives lies at or after `i` and holds `p`.
proof fn lemma_find_from(t: Seq<char>, p: Seq<char>, i: int)
    ensures
        find_from(t, p, i) matches Some(k) ==> i <= k && k + p.len() <= t.len() && matches_at(t, p, k),
    decreases t.len() - i,
{
    if !(i < 0 || i >= t.len() || i + p.len() > t.len()) && !matches_at(t, p, i) {
        lemma_find_from(t, p, i + 1);
    }
}

/// Whether `p` occurs in `t` at position `i`.
fn matches_at_exec(t: &Vec<char>, p: &Vec<char>, i: usize) -> (r: bool)
    requires
        i + p.len() <= t.len(),
    ensures
        r == matches_at(t@, p@, i as int),
{
    let mut j: usize = 0;
    while j < p.len()
        invariant
            i + p.len() <= t.len(),
            j <= p.len(),
            forall|q: int| 0 <= q < j ==> t@[i + q] == p@[q],
        decreases p.len() - j,
    {
        if t[i + j] != p[j] {
            assert(t@.subrange(i as int, i + p.len())[j as int] != p@[j as int]);
            return false;
        }
        j = j + 1;
    }
    assert(t@.subrange(i as int, i + p.len()) =~= p@);
    true
}

/// The first position at or after `i` where `p` occurs in `t`.
fn find_from_exec(t: &Vec<char>, p: &Vec<char>, i: usize) -> (r: Option<usize>)
    ensures
        r matches Some(k) ==> find_from(t@, p@, i as int) == Some(k as int),
        r is None ==> find_from(t@, p@, i as int) is None,
{
    let mut k: usize = i;
    while k < t.len() && p.len() <= t.len() - k
        invariant
            i <= k,
            find_from(t@, p@, i as int) == find_from(t@, p@, k as int),
        decreases t.len() - k,
    {
        if matches_at_exec(t, p, k) {
            return Some(k);
        }
        k = k + 1;
    }
    None
}

/// The characters of `src`, in order.
fn chars_of(src: &str) -> (r: Vec<char>)
    ensures
        r@ == src@,
{
    broadcast use vstd::string::group_string_axioms;

    let mut it = src.chars();
    let mut v: Vec<char> = Vec::new();
    loop
        invariant
            v@ + it.remaining() == src@,
            it.obeys_prophetic_iter_laws(),
            v.len() <= src@.len(),
        ensures
            v@ == src@,
        decreases src@.len() - v.len(),
    {
        let ghost before = it;
        match it.next() {
            Some(c) => {
                proof {
                    assert(next_post(&before, &it, Some(c)));
                }
                assert(v@.push(c) + it.remaining() =~= v@ + before.remaining());
                v.push(c);
            },
            None => {
                proof {
                    assert(next_post(&before, &it, None));
                }
                assert(v@ =~= src@);
                break;
            },
        }
    }
    v
}

/// The text of `[lo, hi)` of `src`, as a new string.
fn text_of(src: &str, lo: usize, hi: usize) -> (r: String)
    requires
        lo <= hi <= src@.len(),
    ensures
        r@ == src@.subrange(lo as int, hi as int),
{
    src.substring_char(lo, hi).to_owned()
}

fn is_space_exec(c: char) -> (r: bool)
    ensures
        r == is_space(c),
{
    c == ' ' || c == '\t' || c == '\n' || c == '\r'
}

fn is_digit_exec(c: char) -> (r: bool)
    ensures
        r == is_digit(c),
{
    '0' <= c && c <= '9'
}

fn is_ident_char_exec(c: char) -> (r: bool)
    ensures
        r == is_ident_char(c),
{
    ('a' <= c && c <= 'z') || ('A' <= c && c <= 'Z') || c == '_' || is_digit_exec(c)
}

/// The first position in `[i, e)` that holds `c`.
fn find_char_exec(t: &Vec<char>, c: char, i: usize, e: usize) -> (r: Option<usize>)
    requires
        i <= e <= t.len(),
    ensures
        r matches Some(k) ==> find_char(t@, c, i as int, e as int) == Some(k as int) && i <= k < e,
        r is None ==> find_char(t@, c, i as int, e as int) is None,
{
    let mut k: usize = i;
    while k < e
        invariant
            i <= k <= e <= t.len(),
            find_char(t@, c, i as int, e as int) == find_char(t@, c, k as int, e as int),
        decreases e - k,
    {
        if t[k] == c {
            return Some(k);
        }
        k = k + 1;
    }
    None
}

/// The start of `[lo, hi)` past its leading whitespace.
fn trim_start_exec(t: &Vec<char>, lo: usize, hi: usize) -> (r: usize)
    requires
        lo <= hi <= t.len(),
    ensures
        r as int == trim_start(t@, lo as int, hi as int),
        lo <= r <= hi,
{
    let mut k: usize = lo;
    while k < hi && is_space_exec(t[k])
        invariant
            lo <= k <= hi <= t.len(),
            trim_start(t@, lo as int, hi as int) == trim_start(t@, k as int, hi as int),
        decreases hi - k,
    {
        k = k + 1;
    }
    k
}

/// The end of `[lo, hi)` before its trailing whitespace.
fn trim_end_exec(t: &Vec<char>, lo: usize, hi: usize) -> (r: usize)
    requires
        lo <= hi <= t.len(),
    ensures
        r as int == trim_end(t@, lo as int, hi as int),
        lo <= r <= hi,
{
    let mut k: usize = hi;
    while lo < k && is_space_exec(t[k - 1])
        invariant
            lo <= k <= hi <= t.len(),
            trim_end(t@, lo as int, hi as int) == trim_end(t@, lo as int, k as int),
        decreases k - lo,
    {
        k = k - 1;
    }
    k
}

/// Whether every character of `[a, b)` is a decimal digit.
fn all_digits_exec(t: &Vec<char>, a: usize, b: usize) -> (r: bool)
    requires
        a <= b <= t.len(),
    ensures
        r == all_digits(t@, a as int, b as int),
{
    let mut k: usize = a;
    while k < b
        invariant
            a <= k <= b <= t.len(),
            all_digits(t@, a as int, k as int),
        decreases b - k,
    {
        if !is_digit_exec(t[k]) {
            return false;
        }
        k = k + 1;
    }
    true
}

/// Whether `[a, b)` is an identifier.
fn is_ident_exec(t: &Vec<char>, a: usize, b: usize) -> (r: bool)
    requires
        a <= b <= t.len(),
    ensures
        r == is_ident(t@, a as int, b as int),
{
    if a == b {
        return false;
    }
    let c = t[a];
    if !(('a' <= c && c <= 'z') || ('A' <= c && c <= 'Z') || c == '_') {
        return false;
    }
    let mut k: usize = a;
    while k < b
        invariant
            a <= k <= b <= t.len(),
            forall|j: int| a <= j < k ==> is_ident_char(#[trigger] t@[j]),
        decreases b - k,
    {
        if !is_ident_char_exec(t[k]) {
            return false;
        }
        k = k + 1;
    }
    true
}

/// Whether `[a, b)` is digits with exactly one decimal point.
fn is_decimal_exec(t: &Vec<char>, a: usize, b: usize) -> (r: bool)
    requires
        a <= b <= t.len(),
    ensures
        r == is_decimal(t@, a as int, b as int),
{
    match find_char_exec(t, '.', a, b) {
        Some(d) => b - a >= 2 && all_digits_exec(t, a, d) && all_digits_exec(t, d + 1, b),
        None => false,
    }
}

/// Whether `[a, b)` is a quoted string.
fn is_quoted_exec(t: &Vec<char>, a: usize, b: usize) -> (r: bool)
    requires
        a <= b <= t.len(),
    ensures
        r == is_quoted(t@, a as int, b as int),
{
    b - a >= 2 && t[a] == '"' && t[b - 1] == '"' && find_char_exec(t, '"', a + 1, b - 1).is_none()
}

/// `head` in front of what `rest` holds, when it holds anything.
pub open spec fn prepend(head: Seq<Node>, rest: Option<Seq<Node>>) -> Option<Seq<Node>> {
    match rest {
        Some(r) => Some(head + r),
        None => None,
    }
}

/// The model of an optional node.
pub open spec fn opt_view(r: Option<TemplateNode>) -> Option<Node> {
    match r {
        Some(n) => Some(n@),
        None => None,
    }
}

/// The expression that `[lo, hi)` holds.
fn parse_expr_exec(src: &str, t: &Vec<char>, lo: usize, hi: usize) -> (r: Option<TemplateNode>)
    requires
        t@ == src@,
        lo <= hi <= t.len(),
    ensures
        opt_view(r) == parse_expr(t@, lo as int, hi as int),
    decreases hi - lo, 0int,
{
    let a = trim_start_exec(t, lo, hi);
    let b = trim_end_exec(t, a, hi);
    if a >= b {
        return None;
    }
    if t[a] == '"' {
        if is_quoted_exec(t, a, b) {
            Some(TemplateNode::String(text_of(src, a + 1, b - 1)))
        } else {
            None
        }
    } else if all_digits_exec(t, a, b) {
        Some(TemplateNode::Number(text_of(src, a, b)))
    } else if is_decimal_exec(t, a, b) {
        Some(TemplateNode::Float(text_of(src, a, b)))
    } else {
        match find_char_exec(t, '(', a, b) {
            Some(k) => {
                let nb = trim_end_exec(t, a, k);
                if k + 1 < b && is_ident_exec(t, a, nb) && t[b - 1] == ')' {
                    let name = text_of(src, a, nb);
                    if trim_start_exec(t, k + 1, b - 1) == b - 1 {
                        let args: Vec<TemplateNode> = Vec::new();
                        proof {
                            assert(nodes_view(args@) =~= Seq::<Node>::empty());
                        }
                        Some(TemplateNode::Function(name, args))
                    } else {
                        match parse_args_exec(src, t, k + 1, b - 1) {
                            Some(args) => Some(TemplateNode::Function(name, args)),
                            None => None,
                        }
                    }
                } else {
                    None
                }
            },
            None => if is_ident_exec(t, a, b) {
                Some(TemplateNode::Variable(text_of(src, a, b)))
            } else {
                None
            },
        }
    }
}

/// Where the argument that begins at `i` ends in `[i, e)`.
fn arg_end_exec(t: &Vec<char>, i: usize, e: usize) -> (r: Option<usize>)
    requires
        i <= e <= t.len(),
    ensures
        r matches Some(j) ==> arg_end(t@, i as int, e as int, 0, false) == Some(j as int),
        r is None ==> arg_end(t@, i as int, e as int, 0, false) is None,
{
    let mut k: usize = i;
    let mut depth: usize = 0;
    let mut quoted: bool = false;
    while k < e
        invariant
            i <= k <= e <= t.len(),
            depth <= k,
            arg_end(t@, i as int, e as int, 0, false) == arg_end(
                t@,
                k as int,
                e as int,
                depth as nat,
                quoted,
            ),
        decreases e - k,
    {
        let c = t[k];
        if quoted {
            quoted = c != '"';
        } else if c == '"' {
            quoted = true;
        } else if c == '(' {
            depth = depth + 1;
        } else if c == ')' {
            if depth == 0 {
                return None;
            }
            depth = depth - 1;
        } else if c == ',' && depth == 0 {
            return Some(k);
        }
        k = k + 1;
    }
    if depth == 0 && !quoted {
        Some(e)
    } else {
        None
    }
}

/// The arguments that `[s, e)` holds, split at top-level commas.
fn parse_args_exec(src: &str, t: &Vec<char>, s: usize, e: usize) -> (r: Option<Vec<TemplateNode>>)
    requires
        t@ == src@,
        s <= e <= t.len(),
    ensures
        match r {
            Some(v) => parse_args(t@, s as int, e as int) == Some(nodes_view(v@)),
            None => parse_args(t@, s as int, e as int) is None,
        },
    decreases e - s, 1int,
{
    let ghost top = parse_args(t@, s as int, e as int);
    let mut acc: Vec<TemplateNode> = Vec::new();
    let mut start: usize = s;
    proof {
        assert(nodes_view(acc@) =~= Seq::<Node>::empty());
        if top is Some {
            assert(Seq::<Node>::empty() + top.unwrap() =~= top.unwrap());
        }
    }
    loop
        invariant
            t@ == src@,
            s <= start <= e <= t.len(),
            top == parse_args(t@, s as int, e as int),
            top == prepend(nodes_view(acc@), parse_args(t@, start as int, e as int)),
        decreases e - start,
    {
        proof {
            lemma_arg_end(t@, start as int, e as int, 0, false);
        }
        let j = match arg_end_exec(t, start, e) {
            None => {
                return None;
            },
            Some(j) => j,
        };
        let n = match parse_expr_exec(src, t, start, j) {
            None => {
                return None;
            },
            Some(n) => n,
        };
        let ghost prev = acc@;
        acc.push(n);
        proof {
            assert(acc@.drop_last() =~= prev);
        }
        if j >= e {
            assert(nodes_view(prev) + seq![n@] =~= nodes_view(acc@));
            return Some(acc);
        }
        proof {
            let rest = parse_args(t@, j + 1, e as int);
            if rest is Some {
                assert(nodes_view(prev) + (seq![n@] + rest.unwrap()) =~= nodes_view(acc@)
                    + rest.unwrap());
            }
        }
        start = j + 1;
    }
}

/// `head` in front of the nodes of `rest`, or the failure of `rest`.
pub open spec fn prepend_parsed(head: Seq<Node>, rest: Result<Seq<Node>, ParseFault>) -> Result<
    Seq<Node>,
    ParseFault,
> {
    match rest {
        Ok(r) => Ok(head + r),
        Err(e) => Err(e),
    }
}

/// Parses `template` into its nodes: text outside the delimiters `open` and `close` becomes
/// raw text, and what stands between a pair of them one expression.
pub fn parse(template: &str, open: &str, close: &str) -> (r: Result<Vec<TemplateNode>, ParseError>)
    requires
        open@.len() > 0,
        close@.len() > 0,
    ensures
        match r {
            Ok(v) => parse_template(template@, open@, close@) == Ok::<Seq<Node>, ParseFault>(
                nodes_view(v@),
            ),
            Err(e) => parse_template(template@, open@, close@) == Err::<Seq<Node>, ParseFault>(e@),
        },
{
    let t = chars_of(template);
    let o = chars_of(open);
    let c = chars_of(close);
    let ghost top = parse_template(t@, o@, c@);
    let mut acc: Vec<TemplateNode> = Vec::new();
    let mut i: usize = 0;
    proof {
        assert(nodes_view(acc@) =~= Seq::<Node>::empty());
        if top is Ok {
            assert(Seq::<Node>::empty() + top->Ok_0 =~= top->Ok_0);
        }
    }
    loop
        invariant
            t@ == template@,
            o@ == open@,
            c@ == close@,
            o.len() > 0,
            c.len() > 0,
            i <= t.len(),
            top == parse_template(t@, o@, c@),
            top == prepend_parsed(nodes_view(acc@), parse_from(t@, o@, c@, i as int)),
        decreases t.len() - i,
    {
        proof {
            lemma_find_from(t@, o@, i as int);
        }
        match find_from_exec(&t, &o, i) {
            None => {
                let ghost prev = acc@;
                if i < t.len() {
                    let text = text_of(template, i, t.len());
                    let ghost x = TemplateNode::RawText(text);
                    acc.push(TemplateNode::RawText(text));
                    proof {
                        assert(acc@.drop_last() =~= prev);
                        assert(acc@.last() == x);
                        assert(nodes_view(acc@) == nodes_view(prev).push(x@));
                    }
                }
                assert(nodes_view(acc@) =~= nodes_view(prev) + raw_text(t@, i as int, t.len() as int));
                proof {
                    assert(nodes_view(acc@) =~= nodes_view(acc@) + Seq::<Node>::empty());
                }
                return Ok(acc);
            },
            Some(k) => {
                let body = k + o.len();
                proof {
                    lemma_find_from(t@, c@, body as int);
                }
                match find_from_exec(&t, &c, body) {
                    None => {
                        return Err(ParseError::Unterminated(k));
                    },
                    Some(m) => {
                        match parse_expr_exec(template, &t, body, m) {
                            None => {
                                return Err(ParseError::InvalidExpression(text_of(template, body, m)));
                            },
                            Some(n) => {
                                let ghost prev = acc@;
                                let ghost raw = raw_text(t@, i as int, k as int);
                                if i < k {
                                    let text = text_of(template, i, k);
                                    let ghost x = TemplateNode::RawText(text);
                                    acc.push(TemplateNode::RawText(text));
                                    proof {
                                        assert(acc@.drop_last() =~= prev);
                                        assert(acc@.last() == x);
                                        assert(nodes_view(acc@) == nodes_view(prev).push(x@));
                                    }
                                }
                                assert(nodes_view(acc@) =~= nodes_view(prev) + raw);
                                let ghost mid = acc@;
                                acc.push(n);
                                proof {
                                    assert(acc@.drop_last() =~= mid);
                                    let next = parse_from(t@, o@, c@, m + c.len());
                                    if next is Ok {
                                        assert(nodes_view(prev) + (raw + seq![n@] + next->Ok_0)
                                            =~= nodes_view(acc@) + next->Ok_0);
                                    }
                                }
                                i = m + c.len();
                            },
                        }
                    },
                }
            },
        }
    }
}

} // verus!
