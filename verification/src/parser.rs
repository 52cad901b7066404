//! The parser: each rule of `grammar` as an executable function on a
//! `Source` and a position, proved to return what the rule says.
use crate::grammar::{self, CharClass, ErrorKind, Fail, Parsed, ParsedList};
use crate::node::{
    append_nodes, lemma_nodes_view_push, lemma_nodes_view_skip, nodes_view, pair, push_node, single,
    Node, SNode,
};
use crate::source::Source;
use vstd::prelude::*;

verus! {

/// Why a rule did not succeed: an error at a position, or a number literal
/// too large for `i32`.
#[derive(Debug, Clone, Copy, PartialEq, Eq)]
pub enum Failure {
    Error { pos: usize, kind: ErrorKind },
    Overflow,
}

pub open spec fn fail_view(f: Failure) -> Fail {
    match f {
        Failure::Error { pos, kind } => Fail::Error(pos as int, kind),
        Failure::Overflow => Fail::Overflow,
    }
}

pub open spec fn res_view(r: Result<(usize, Node), Failure>) -> Parsed {
    match r {
        Ok((q, n)) => Ok((q as int, n@)),
        Err(f) => Err(fail_view(f)),
    }
}

pub open spec fn list_view(r: Result<(usize, Vec<Node>), Failure>) -> ParsedList {
    match r {
        Ok((q, v)) => Ok((q as int, nodes_view(v@))),
        Err(f) => Err(fail_view(f)),
    }
}

/// A result ends between `p` and `len`, and an error stands at most at `len`.
pub open spec fn bounded(r: Result<(usize, Node), Failure>, p: int, len: int) -> bool {
    &&& r matches Ok((q, _)) ==> p <= q <= len
    &&& r matches Err(Failure::Error { pos, .. }) ==> pos <= len
}

pub open spec fn list_bounded(r: Result<(usize, Vec<Node>), Failure>, p: int, len: int) -> bool {
    &&& r matches Ok((q, _)) ==> p <= q <= len
    &&& r matches Err(Failure::Error { pos, .. }) ==> pos <= len
}

/// `acc` followed by the items of `r`, when `r` succeeded.
pub open spec fn prepend(acc: Seq<SNode>, r: ParsedList) -> ParsedList {
    match r {
        Ok((q, ns)) => Ok((q, acc + ns)),
        Err(e) => Err(e),
    }
}

proof fn lemma_prepend_push(acc: Seq<SNode>, n: SNode, r: ParsedList)
    ensures
        prepend(acc, prepend(seq![n], r)) == prepend(acc.push(n), r),
{
    if let Ok((q, ns)) = r {
        assert(acc + (seq![n] + ns) =~= acc.push(n) + ns);
    }
}

fn err(pos: usize, kind: ErrorKind) -> (r: Result<(usize, Node), Failure>)
    ensures
        r == Err::<(usize, Node), Failure>(Failure::Error { pos, kind }),
{
    Err(Failure::Error { pos, kind })
}

fn class_has(c: char, k: CharClass) -> (b: bool)
    ensures
        b == grammar::in_class(c, k),
{
    let alpha = ('a' <= c && c <= 'z') || ('A' <= c && c <= 'Z');
    let digit = '0' <= c && c <= '9';
    match k {
        CharClass::AlphaNumeric => alpha || digit,
        CharClass::Digit => digit,
        CharClass::Space => c == ' ' || c == '\t',
        CharClass::MultiSpace => c == ' ' || c == '\t' || c == '\r' || c == '\n',
        CharClass::StringBody => alpha || digit || c == ' ',
    }
}

/// The end of the run of class `k` that starts at `p`.
fn span(src: &Source, p: usize, k: CharClass) -> (q: usize)
    requires
        p <= src.chars@.len(),
    ensures
        q == grammar::span_end(src.chars@, p as int, k),
        p <= q <= src.chars@.len(),
{
    let mut i = p;
    while i < src.chars.len() && class_has(src.chars[i], k)
        invariant
            p <= i <= src.chars@.len(),
            grammar::span_end(src.chars@, p as int, k) == grammar::span_end(
                src.chars@,
                i as int,
                k,
            ),
        decreases src.chars@.len() - i,
    {
        i = i + 1;
    }
    i
}

/// The character `c` stands at `p`.
fn tag1(src: &Source, p: usize, c: char) -> (b: bool)
    ensures
        b == grammar::has_tag(src.chars@, p as int, grammar::one(c)),
{
    if p < src.chars.len() && src.chars[p] == c {
        assert(src.chars@.subrange(p as int, p + 1) =~= grammar::one(c));
        true
    } else {
        proof {
            if grammar::has_tag(src.chars@, p as int, grammar::one(c)) {
                assert(src.chars@.subrange(p as int, p + 1)[0] == c);
            }
        }
        false
    }
}

/// The characters of `t` stand at `p`.
fn tag(src: &Source, p: usize, t: &[char]) -> (b: bool)
    ensures
        b == grammar::has_tag(src.chars@, p as int, t@),
{
    if p > src.chars.len() || t.len() > src.chars.len() - p {
        return false;
    }
    let mut i: usize = 0;
    let n = src.chars.len();
    while i < t.len()
        invariant
            n == src.chars@.len(),
            p + t@.len() <= src.chars@.len(),
            i <= t@.len(),
            forall|j: int| 0 <= j < i ==> src.chars@[p + j] == t@[j],
        decreases t@.len() - i,
    {
        assert(p + i < src.chars@.len());
        if src.chars[p + i] != t[i] {
            proof {
                if grammar::has_tag(src.chars@, p as int, t@) {
                    assert(src.chars@.subrange(p as int, p + t@.len())[i as int] == t@[i as int]);
                }
            }
            return false;
        }
        i = i + 1;
    }
    assert(src.chars@.subrange(p as int, p + t@.len()) =~= t@);
    true
}

proof fn lemma_digits_value_prefix(d: Seq<char>, k: int)
    requires
        0 <= k <= d.len(),
        forall|i: int| 0 <= i < d.len() ==> grammar::is_digit(#[trigger] d[i]),
    ensures
        0 <= grammar::digits_value(d.take(k)) <= grammar::digits_value(d),
    decreases d.len(),
{
    if d.len() > 0 {
        if k == d.len() {
            assert(d.take(k) =~= d);
            lemma_digits_value_prefix(d.drop_last(), k - 1);
        } else {
            assert(d.drop_last().take(k) =~= d.take(k));
            lemma_digits_value_prefix(d.drop_last(), k);
        }
        lemma_digits_value_prefix(d.drop_last(), 0);
    } else {
        assert(d.take(k) =~= d);
    }
}

fn alpha_char(c: char) -> (b: bool)
    ensures
        b == grammar::is_alpha(c),
{
    ('a' <= c && c <= 'z') || ('A' <= c && c <= 'Z')
}

/// The end of the identifier that starts at `p`, or `p` where none does.
fn identifier_end(src: &Source, p: usize) -> (q: usize)
    requires
        p <= src.chars@.len(),
    ensures
        p <= q <= src.chars@.len(),
        q == p <==> grammar::identifier(src.chars@, p as int) is Err,
        q != p ==> grammar::identifier(src.chars@, p as int) == Ok::<(int, SNode), Fail>(
            (q as int, SNode::Identifier(src.chars@.subrange(p as int, q as int))),
        ),
{
    if p < src.chars.len() && alpha_char(src.chars[p]) {
        let q = span(src, p, CharClass::AlphaNumeric);
        proof {
            grammar::lemma_span_end_bounds(src.chars@, p as int, CharClass::AlphaNumeric);
        }
        q
    } else {
        p
    }
}

fn identifier_at(src: &Source, p: usize) -> (r: Result<(usize, Node), Failure>)
    requires
        src.wf(),
        p <= src.chars@.len(),
    ensures
        res_view(r) == grammar::identifier(src.chars@, p as int),
        bounded(r, p as int, src.chars@.len() as int),
{
    let q = identifier_end(src, p);
    if q == p {
        return err(p, ErrorKind::AlphaNumeric);
    }
    let value = name_between(src, p, q);
    Ok((q, Node::Identifier { value }))
}

fn number_at(src: &Source, p: usize) -> (r: Result<(usize, Node), Failure>)
    requires
        src.wf(),
        p <= src.chars@.len(),
    ensures
        res_view(r) == grammar::number(src.chars@, p as int),
        bounded(r, p as int, src.chars@.len() as int),
{
    let q = span(src, p, CharClass::Digit);
    if q == p {
        return err(p, ErrorKind::Digit);
    }
    let ghost d = src.chars@.subrange(p as int, q as int);
    proof {
        grammar::lemma_span_end_bounds(src.chars@, p as int, CharClass::Digit);
    }
    let mut acc: u64 = 0;
    let mut i = p;
    while i < q
        invariant
            p <= i <= q <= src.chars@.len(),
            p < q == grammar::span_end(src.chars@, p as int, CharClass::Digit),
            d == src.chars@.subrange(p as int, q as int),
            forall|j: int| 0 <= j < d.len() ==> grammar::is_digit(#[trigger] d[j]),
            acc == grammar::digits_value(d.take(i - p)),
            acc <= 2147483647,
        decreases q - i,
    {
        let c = src.chars[i];
        assert(d[i - p] == c);
        let digit = (c as u32 - '0' as u32) as u64;
        let next = acc * 10 + digit;
        assert(d.take(i - p + 1).drop_last() =~= d.take(i - p));
        assert(d.take(i - p + 1).last() == c);
        assert(next == grammar::digits_value(d.take(i - p + 1)));
        if next > 2147483647 {
            proof {
                lemma_digits_value_prefix(d, i - p + 1);
            }
            return Err(Failure::Overflow);
        }
        acc = next;
        i = i + 1;
    }
    assert(d.take(q - p) =~= d);
    Ok((q, Node::Number { value: acc as i32 }))
}

fn boolean_at(src: &Source, p: usize) -> (r: Result<(usize, Node), Failure>)
    requires
        src.wf(),
        p <= src.chars@.len(),
    ensures
        res_view(r) == grammar::boolean(src.chars@, p as int),
        bounded(r, p as int, src.chars@.len() as int),
{
    let kw_true: [char; 4] = ['t', 'r', 'u', 'e'];
    let kw_false: [char; 5] = ['f', 'a', 'l', 's', 'e'];
    assert(kw_true@ =~= grammar::kw_true());
    assert(kw_false@ =~= grammar::kw_false());
    if tag(src, p, &kw_true) {
        Ok((p + 4, Node::Bool { value: true }))
    } else if tag(src, p, &kw_false) {
        Ok((p + 5, Node::Bool { value: false }))
    } else {
        err(p, ErrorKind::Tag)
    }
}

fn string_at(src: &Source, p: usize) -> (r: Result<(usize, Node), Failure>)
    requires
        src.wf(),
        p <= src.chars@.len(),
    ensures
        res_view(r) == grammar::string(src.chars@, p as int),
        bounded(r, p as int, src.chars@.len() as int),
{
    if !tag1(src, p, '"') {
        return err(p, ErrorKind::Tag);
    }
    let q = span(src, p + 1, CharClass::StringBody);
    if q == p + 1 {
        return err(p + 1, ErrorKind::Tag);
    }
    if !tag1(src, q, '"') {
        return err(q, ErrorKind::Tag);
    }
    let value = name_between(src, p + 1, q);
    Ok((q + 1, Node::String { value }))
}

proof fn lemma_prepend_empty(r: ParsedList)
    ensures
        r == prepend(seq![], r),
{
    if let Ok((q, ns)) = r {
        assert(seq![] + ns =~= ns);
    }
}

proof fn lemma_prepend_done(acc: Seq<SNode>, i: int)
    ensures
        prepend(acc, Ok((i, seq![]))) == Ok::<(int, Seq<SNode>), Fail>((i, acc)),
{
    assert(acc + seq![] =~= acc);
}

/// The name that runs from `p` to `q` in the source.
fn name_between(src: &Source, p: usize, q: usize) -> (s: String)
    requires
        src.wf(),
        p <= q <= src.chars@.len(),
    ensures
        s@ == src.chars@.subrange(p as int, q as int),
{
    src.text.substring_char(p, q).to_owned()
}

/// Folds an infix tail into a left-nested tree.
fn fold_infix(head: Node, tail: Vec<Node>) -> (r: Node)
    ensures
        r@ == grammar::fold_infix(head@, nodes_view(tail@)),
{
    let mut head = head;
    let mut tail = tail;
    let ghost goal = grammar::fold_infix(head@, nodes_view(tail@));
    while tail.len() > 0
        invariant
            goal == grammar::fold_infix(head@, nodes_view(tail@)),
        decreases tail@.len(),
    {
        let ghost old_tail = tail@;
        let n = tail.remove(0);
        proof {
            assert(tail@ =~= old_tail.skip(1));
            lemma_nodes_view_skip(old_tail, 1);
            assert(nodes_view(old_tail)[0] == n@);
        }
        match n {
            Node::MathExpression { name, children } => {
                let mut nc = single(head);
                append_nodes(&mut nc, children);
                head = Node::MathExpression { name, children: nc };
            },
            _ => {},
        }
    }
    assert(nodes_view(tail@) =~= seq![]);
    head
}

/// function_call = identifier , "(" , {arguments} , ")" ;
fn function_call_at(src: &Source, p: usize) -> (r: Result<(usize, Node), Failure>)
    requires
        src.wf(),
        p <= src.chars@.len(),
    ensures
        res_view(r) == grammar::function_call(src.chars@, p as int),
        bounded(r, p as int, src.chars@.len() as int),
    decreases src.chars@.len() - p, 0nat,
{
    let q = identifier_end(src, p);
    if q == p {
        return err(p, ErrorKind::AlphaNumeric);
    }
    if !tag1(src, q, '(') {
        return err(q, ErrorKind::Tag);
    }
    match arguments_list_at(src, q + 1) {
        Err(e) => Err(e),
        Ok((r, args)) => {
            if !tag1(src, r, ')') {
                return err(r, ErrorKind::Tag);
            }
            let name = name_between(src, p, q);
            Ok((r + 1, Node::FunctionCall { name, children: args }))
        },
    }
}

/// {arguments}
fn arguments_list_at(src: &Source, p: usize) -> (r: Result<(usize, Vec<Node>), Failure>)
    requires
        src.wf(),
        p <= src.chars@.len(),
    ensures
        list_view(r) == grammar::arguments_list(src.chars@, p as int),
        list_bounded(r, p as int, src.chars@.len() as int),
        decreases src.chars@.len() - p, 8nat,
{
    let mut acc: Vec<Node> = Vec::new();
    let mut i = p;
    proof {
        lemma_prepend_empty(grammar::arguments_list(src.chars@, p as int));
    }
    loop
        invariant
            src.wf(),
            p <= i <= src.chars@.len(),
            grammar::arguments_list(src.chars@, p as int) == prepend(nodes_view(acc@), grammar::arguments_list(src.chars@, i as int)),
        decreases src.chars@.len() - i,
    {
        match arguments_at(src, i) {
            Err(Failure::Overflow) => {
                return Err(Failure::Overflow);
            },
            Err(Failure::Error { .. }) => {
                proof {
                    lemma_prepend_done(nodes_view(acc@), i as int);
                }
                return Ok((i, acc));
            },
            Ok((q, n)) => {
                if q == i {
                    return Err(Failure::Error { pos: i, kind: ErrorKind::Many0 });
                }
                proof {
                    lemma_prepend_push(nodes_view(acc@), n@, grammar::arguments_list(src.chars@, q as int));
                    lemma_nodes_view_push(acc@, n);
                }
                acc.push(n);
                i = q;
            },
        }
    }
}

/// arguments = expression , {other_arg} ;
fn arguments_at(src: &Source, p: usize) -> (r: Result<(usize, Node), Failure>)
    requires
        src.wf(),
        p <= src.chars@.len(),
    ensures
        res_view(r) == grammar::arguments(src.chars@, p as int),
        bounded(r, p as int, src.chars@.len() as int),
    decreases src.chars@.len() - p, 7nat,
{
    match expression_at(src, p) {
        Err(e) => Err(e),
        Ok((q, arg)) => match other_args_at(src, q) {
            Err(e) => Err(e),
            Ok((r, others)) => {
                let mut children = single(arg);
                append_nodes(&mut children, others);
                Ok((r, Node::FunctionArguments { children }))
            },
        },
    }
}

/// {other_arg}
fn other_args_at(src: &Source, p: usize) -> (r: Result<(usize, Vec<Node>), Failure>)
    requires
        src.wf(),
        p <= src.chars@.len(),
    ensures
        list_view(r) == grammar::other_args(src.chars@, p as int),
        list_bounded(r, p as int, src.chars@.len() as int),
        decreases src.chars@.len() - p, 1nat,
{
    let mut acc: Vec<Node> = Vec::new();
    let mut i = p;
    proof {
        lemma_prepend_empty(grammar::other_args(src.chars@, p as int));
    }
    loop
        invariant
            src.wf(),
            p <= i <= src.chars@.len(),
            grammar::other_args(src.chars@, p as int) == prepend(nodes_view(acc@), grammar::other_args(src.chars@, i as int)),
        decreases src.chars@.len() - i,
    {
        match other_arg_at(src, i) {
            Err(Failure::Overflow) => {
                return Err(Failure::Overflow);
            },
            Err(Failure::Error { .. }) => {
                proof {
                    lemma_prepend_done(nodes_view(acc@), i as int);
                }
                return Ok((i, acc));
            },
            Ok((q, n)) => {
                if q == i {
                    return Err(Failure::Error { pos: i, kind: ErrorKind::Many0 });
                }
                proof {
                    lemma_prepend_push(nodes_view(acc@), n@, grammar::other_args(src.chars@, q as int));
                    lemma_nodes_view_push(acc@, n);
                }
                acc.push(n);
                i = q;
            },
        }
    }
}

/// other_arg = "," , space0 , expression ;
fn other_arg_at(src: &Source, p: usize) -> (r: Result<(usize, Node), Failure>)
    requires
        src.wf(),
        p <= src.chars@.len(),
    ensures
        res_view(r) == grammar::other_arg(src.chars@, p as int),
        bounded(r, p as int, src.chars@.len() as int),
    decreases src.chars@.len() - p, 0nat,
{
    if !tag1(src, p, ',') {
        return err(p, ErrorKind::Tag);
    }
    let q = span(src, p + 1, CharClass::Space);
    expression_at(src, q)
}

/// parenthetical_expression = space0 , "(" , space0 , l1 , space0 , ")" , space0 ;
fn parenthetical_at(src: &Source, p: usize) -> (r: Result<(usize, Node), Failure>)
    requires
        src.wf(),
        p <= src.chars@.len(),
    ensures
        res_view(r) == grammar::parenthetical_expression(src.chars@, p as int),
        bounded(r, p as int, src.chars@.len() as int),
    decreases src.chars@.len() - p, 0nat,
{
    let q = span(src, p, CharClass::Space);
    if !tag1(src, q, '(') {
        return err(q, ErrorKind::Tag);
    }
    let r = span(src, q + 1, CharClass::Space);
    match l1_at(src, r) {
        Err(e) => Err(e),
        Ok((t, e)) => {
            let t0 = span(src, t, CharClass::Space);
            if !tag1(src, t0, ')') {
                return err(t0, ErrorKind::Tag);
            }
            let u = span(src, t0 + 1, CharClass::Space);
            Ok((u, e))
        },
    }
}

/// l4 = function_call | number | identifier | parenthetical_expression ;
fn l4_at(src: &Source, p: usize) -> (r: Result<(usize, Node), Failure>)
    requires
        src.wf(),
        p <= src.chars@.len(),
    ensures
        res_view(r) == grammar::l4(src.chars@, p as int),
        bounded(r, p as int, src.chars@.len() as int),
    decreases src.chars@.len() - p, 1nat,
{
    let r = function_call_at(src, p);
    if !(r matches Err(Failure::Error { .. })) {
        return r;
    }
    let r = number_at(src, p);
    if !(r matches Err(Failure::Error { .. })) {
        return r;
    }
    let r = identifier_at(src, p);
    if !(r matches Err(Failure::Error { .. })) {
        return r;
    }
    parenthetical_at(src, p)
}

/// One operator and its right operand (see `grammar::infix`).
fn infix_at(src: &Source, p: usize, level: u8) -> (r: Result<(usize, Node), Failure>)
    requires
        src.wf(),
        p <= src.chars@.len(),
        1 <= level <= 3,
    ensures
        res_view(r) == grammar::infix(src.chars@, p as int, level as nat),
        bounded(r, p as int, src.chars@.len() as int),
    decreases src.chars@.len() - p, 0nat,
{
    let q = span(src, p, CharClass::Space);
    let op_ok = if level == 3 {
        tag1(src, q, '^')
    } else if level == 2 {
        tag1(src, q, '*') || tag1(src, q, '/')
    } else {
        tag1(src, q, '+') || tag1(src, q, '-')
    };
    if !op_ok {
        return err(q, ErrorKind::Tag);
    }
    let r = span(src, q + 1, CharClass::Space);
    let operand = if level == 3 {
        l4_at(src, r)
    } else {
        l2_at(src, r)
    };
    match operand {
        Err(e) => Err(e),
        Ok((t, a)) => {
            let name = name_between(src, q, q + 1);
            assert(src.chars@.subrange(q as int, q + 1) =~= seq![src.chars@[q as int]]);
            Ok((t, Node::MathExpression { name, children: single(a) }))
        },
    }
}

/// {infix}
fn infix_tail_at(src: &Source, p: usize, level: u8) -> (r: Result<(usize, Vec<Node>), Failure>)
    requires
        src.wf(),
        p <= src.chars@.len(),
        1 <= level <= 3,
    ensures
        list_view(r) == grammar::infix_tail(src.chars@, p as int, level as nat),
        list_bounded(r, p as int, src.chars@.len() as int),
        decreases src.chars@.len() - p, 1nat,
{
    let mut acc: Vec<Node> = Vec::new();
    let mut i = p;
    proof {
        lemma_prepend_empty(grammar::infix_tail(src.chars@, p as int, level as nat));
    }
    loop
        invariant
            src.wf(),
            p <= i <= src.chars@.len(),
            1 <= level <= 3,
            grammar::infix_tail(src.chars@, p as int, level as nat) == prepend(nodes_view(acc@), grammar::infix_tail(src.chars@, i as int, level as nat)),
        decreases src.chars@.len() - i,
    {
        match infix_at(src, i, level) {
            Err(Failure::Overflow) => {
                return Err(Failure::Overflow);
            },
            Err(Failure::Error { .. }) => {
                proof {
                    lemma_prepend_done(nodes_view(acc@), i as int);
                }
                return Ok((i, acc));
            },
            Ok((q, n)) => {
                if q == i {
                    return Err(Failure::Error { pos: i, kind: ErrorKind::Many0 });
                }
                proof {
                    lemma_prepend_push(nodes_view(acc@), n@, grammar::infix_tail(src.chars@, q as int, level as nat));
                    lemma_nodes_view_push(acc@, n);
                }
                acc.push(n);
                i = q;
            },
        }
    }
}

/// l3 = l4 , {l3_infix} ;
fn l3_at(src: &Source, p: usize) -> (r: Result<(usize, Node), Failure>)
    requires
        src.wf(),
        p <= src.chars@.len(),
    ensures
        res_view(r) == grammar::l3(src.chars@, p as int),
        bounded(r, p as int, src.chars@.len() as int),
    decreases src.chars@.len() - p, 2nat,
{
    match l4_at(src, p) {
        Err(e) => Err(e),
        Ok((q, head)) => match infix_tail_at(src, q, 3) {
            Err(e) => Err(e),
            Ok((r, tail)) => Ok((r, fold_infix(head, tail))),
        },
    }
}

/// l2 = l3 , {l2_infix} ;
fn l2_at(src: &Source, p: usize) -> (r: Result<(usize, Node), Failure>)
    requires
        src.wf(),
        p <= src.chars@.len(),
    ensures
        res_view(r) == grammar::l2(src.chars@, p as int),
        bounded(r, p as int, src.chars@.len() as int),
    decreases src.chars@.len() - p, 3nat,
{
    match l3_at(src, p) {
        Err(e) => Err(e),
        Ok((q, head)) => match infix_tail_at(src, q, 2) {
            Err(e) => Err(e),
            Ok((r, tail)) => Ok((r, fold_infix(head, tail))),
        },
    }
}

/// l1 = l2 , {l1_infix} ;
fn l1_at(src: &Source, p: usize) -> (r: Result<(usize, Node), Failure>)
    requires
        src.wf(),
        p <= src.chars@.len(),
    ensures
        res_view(r) == grammar::l1(src.chars@, p as int),
        bounded(r, p as int, src.chars@.len() as int),
    decreases src.chars@.len() - p, 4nat,
{
    match l2_at(src, p) {
        Err(e) => Err(e),
        Ok((q, head)) => match infix_tail_at(src, q, 1) {
            Err(e) => Err(e),
            Ok((r, tail)) => Ok((r, fold_infix(head, tail))),
        },
    }
}

/// math_expression = l1 ;
fn math_expression_at(src: &Source, p: usize) -> (r: Result<(usize, Node), Failure>)
    requires
        src.wf(),
        p <= src.chars@.len(),
    ensures
        res_view(r) == grammar::math_expression(src.chars@, p as int),
        bounded(r, p as int, src.chars@.len() as int),
    decreases src.chars@.len() - p, 5nat,
{
    l1_at(src, p)
}

/// "{" , multispace0 , {var_statement} , return_statement , "}" , multispace0
fn block_at(src: &Source, p: usize) -> (r: Result<(usize, Vec<Node>), Failure>)
    requires
        src.wf(),
        p <= src.chars@.len(),
    ensures
        list_view(r) == grammar::block(src.chars@, p as int),
        list_bounded(r, p as int, src.chars@.len() as int),
    decreases src.chars@.len() - p, 0nat,
{
    let r1 = span(src, p, CharClass::MultiSpace);
    if !tag1(src, r1, '{') {
        return Err(Failure::Error { pos: r1, kind: ErrorKind::Tag });
    }
    let r2 = span(src, r1 + 1, CharClass::MultiSpace);
    match var_statements_at(src, r2) {
        Err(e) => Err(e),
        Ok((t, vs)) => match return_statement_at(src, t) {
            Err(e) => Err(e),
            Ok((u, rs)) => {
                if !tag1(src, u, '}') {
                    return Err(Failure::Error { pos: u, kind: ErrorKind::Tag });
                }
                let mut vs = vs;
                push_node(&mut vs, rs);
                let end = span(src, u + 1, CharClass::MultiSpace);
                Ok((end, vs))
            },
        },
    }
}

/// "if" (or "else if") , space1 , boolean , multispace0 , block
fn conditional_clause_at(src: &Source, p: usize, else_if: bool) -> (r: Result<(usize, Node), Failure>)
    requires
        src.wf(),
        p <= src.chars@.len(),
    ensures
        res_view(r) == grammar::conditional_clause(src.chars@, p as int, else_if),
        bounded(r, p as int, src.chars@.len() as int),
    decreases src.chars@.len() - p, 0nat,
{
    let kw_if: [char; 2] = ['i', 'f'];
    let kw_else_if: [char; 7] = ['e', 'l', 's', 'e', ' ', 'i', 'f'];
    assert(kw_if@ =~= grammar::kw_if());
    assert(kw_else_if@ =~= grammar::kw_else_if());
    let matched = if else_if {
        tag(src, p, &kw_else_if)
    } else {
        tag(src, p, &kw_if)
    };
    if !matched {
        return err(p, ErrorKind::Tag);
    }
    let p1 = if else_if {
        p + 7
    } else {
        p + 2
    };
    let q = span(src, p1, CharClass::Space);
    if q == p1 {
        return err(p1, ErrorKind::Space);
    }
    match boolean_at(src, q) {
        Err(e) => Err(e),
        Ok((r, cond)) => match block_at(src, r) {
            Err(e) => Err(e),
            Ok((t, stmts)) => {
                let mut children = single(cond);
                append_nodes(&mut children, stmts);
                if else_if {
                    Ok((t, Node::ElseIfClause { children }))
                } else {
                    Ok((t, Node::IfClause { children }))
                }
            },
        },
    }
}

/// if_clause = "if" , space1 , boolean , block ;
fn if_clause_at(src: &Source, p: usize) -> (r: Result<(usize, Node), Failure>)
    requires
        src.wf(),
        p <= src.chars@.len(),
    ensures
        res_view(r) == grammar::if_clause(src.chars@, p as int),
        bounded(r, p as int, src.chars@.len() as int),
    decreases src.chars@.len() - p, 1nat,
{
    conditional_clause_at(src, p, false)
}

/// else_if_clause = "else if" , space1 , boolean , block ;
fn else_if_clause_at(src: &Source, p: usize) -> (r: Result<(usize, Node), Failure>)
    requires
        src.wf(),
        p <= src.chars@.len(),
    ensures
        res_view(r) == grammar::else_if_clause(src.chars@, p as int),
        bounded(r, p as int, src.chars@.len() as int),
    decreases src.chars@.len() - p, 1nat,
{
    conditional_clause_at(src, p, true)
}

/// else_clause = "else" , block ;
fn else_clause_at(src: &Source, p: usize) -> (r: Result<(usize, Node), Failure>)
    requires
        src.wf(),
        p <= src.chars@.len(),
    ensures
        res_view(r) == grammar::else_clause(src.chars@, p as int),
        bounded(r, p as int, src.chars@.len() as int),
    decreases src.chars@.len() - p, 0nat,
{
    let kw_else: [char; 4] = ['e', 'l', 's', 'e'];
    assert(kw_else@ =~= grammar::kw_else());
    if !tag(src, p, &kw_else) {
        return err(p, ErrorKind::Tag);
    }
    match block_at(src, p + 4) {
        Err(e) => Err(e),
        Ok((t, children)) => Ok((t, Node::ElseClause { children })),
    }
}

/// {else_if_clause}
fn else_if_clauses_at(src: &Source, p: usize) -> (r: Result<(usize, Vec<Node>), Failure>)
    requires
        src.wf(),
        p <= src.chars@.len(),
    ensures
        list_view(r) == grammar::else_if_clauses(src.chars@, p as int),
        list_bounded(r, p as int, src.chars@.len() as int),
        decreases src.chars@.len() - p, 2nat,
{
    let mut acc: Vec<Node> = Vec::new();
    let mut i = p;
    proof {
        lemma_prepend_empty(grammar::else_if_clauses(src.chars@, p as int));
    }
    loop
        invariant
            src.wf(),
            p <= i <= src.chars@.len(),
            grammar::else_if_clauses(src.chars@, p as int) == prepend(nodes_view(acc@), grammar::else_if_clauses(src.chars@, i as int)),
        decreases src.chars@.len() - i,
    {
        match else_if_clause_at(src, i) {
            Err(Failure::Overflow) => {
                return Err(Failure::Overflow);
            },
            Err(Failure::Error { .. }) => {
                proof {
                    lemma_prepend_done(nodes_view(acc@), i as int);
                }
                return Ok((i, acc));
            },
            Ok((q, n)) => {
                if q == i {
                    return Err(Failure::Error { pos: i, kind: ErrorKind::Many0 });
                }
                proof {
                    lemma_prepend_push(nodes_view(acc@), n@, grammar::else_if_clauses(src.chars@, q as int));
                    lemma_nodes_view_push(acc@, n);
                }
                acc.push(n);
                i = q;
            },
        }
    }
}

/// if_expression = if_clause , {else_if_clause} , [else_clause] ;
fn if_expression_at(src: &Source, p: usize) -> (r: Result<(usize, Node), Failure>)
    requires
        src.wf(),
        p <= src.chars@.len(),
    ensures
        res_view(r) == grammar::if_expression(src.chars@, p as int),
        bounded(r, p as int, src.chars@.len() as int),
    decreases src.chars@.len() - p, 3nat,
{
    match if_clause_at(src, p) {
        Err(e) => Err(e),
        Ok((q, ic)) => match else_if_clauses_at(src, q) {
            Err(e) => Err(e),
            Ok((r, eics)) => {
                let mut children = single(ic);
                append_nodes(&mut children, eics);
                match else_clause_at(src, r) {
                    Err(Failure::Overflow) => Err(Failure::Overflow),
                    Err(Failure::Error { .. }) => Ok((r, Node::IfExpression { children })),
                    Ok((t, ec)) => {
                        push_node(&mut children, ec);
                        Ok((t, Node::IfExpression { children }))
                    },
                }
            },
        },
    }
}

/// expression = if_expression | boolean | math_expression | function_call | number | string | identifier ;
#[verifier::spinoff_prover]
#[verifier::rlimit(40)]
fn expression_at(src: &Source, p: usize) -> (r: Result<(usize, Node), Failure>)
    requires
        src.wf(),
        p <= src.chars@.len(),
    ensures
        res_view(r) == grammar::expression(src.chars@, p as int),
        bounded(r, p as int, src.chars@.len() as int),
    decreases src.chars@.len() - p, 6nat,
{
    let mut r = if_expression_at(src, p);
    if r matches Err(Failure::Error { .. }) {
        r = boolean_at(src, p);
    }
    if r matches Err(Failure::Error { .. }) {
        r = math_expression_at(src, p);
    }
    if r matches Err(Failure::Error { .. }) {
        r = function_call_at(src, p);
    }
    if r matches Err(Failure::Error { .. }) {
        r = number_at(src, p);
    }
    if r matches Err(Failure::Error { .. }) {
        r = string_at(src, p);
    }
    if r matches Err(Failure::Error { .. }) {
        r = identifier_at(src, p);
    }
    match r {
        Err(e) => Err(e),
        Ok((q, n)) => Ok((q, Node::Expression { children: single(n) })),
    }
}

/// variable_define = "let" , space1 , identifier , space0 , "=" , space0 , expression ;
fn variable_define_at(src: &Source, p: usize) -> (r: Result<(usize, Node), Failure>)
    requires
        src.wf(),
        p <= src.chars@.len(),
    ensures
        res_view(r) == grammar::variable_define(src.chars@, p as int),
        bounded(r, p as int, src.chars@.len() as int),
    decreases src.chars@.len() - p, 0nat,
{
    let kw_let: [char; 3] = ['l', 'e', 't'];
    assert(kw_let@ =~= grammar::kw_let());
    if !tag(src, p, &kw_let) {
        return err(p, ErrorKind::Tag);
    }
    let q = span(src, p + 3, CharClass::Space);
    if q == p + 3 {
        return err(p + 3, ErrorKind::Space);
    }
    match identifier_at(src, q) {
        Err(e) => Err(e),
        Ok((r, var)) => {
            let r0 = span(src, r, CharClass::Space);
            if !tag1(src, r0, '=') {
                return err(r0, ErrorKind::Tag);
            }
            let r1 = span(src, r0 + 1, CharClass::Space);
            match expression_at(src, r1) {
                Err(e) => Err(e),
                Ok((t, e)) => Ok((t, Node::VariableDefine { children: pair(var, e) })),
            }
        },
    }
}

/// function_return = "return " , (function_call | expression | identifier) ;
fn function_return_at(src: &Source, p: usize) -> (r: Result<(usize, Node), Failure>)
    requires
        src.wf(),
        p <= src.chars@.len(),
    ensures
        res_view(r) == grammar::function_return(src.chars@, p as int),
        bounded(r, p as int, src.chars@.len() as int),
    decreases src.chars@.len() - p, 0nat,
{
    let kw_return: [char; 7] = ['r', 'e', 't', 'u', 'r', 'n', ' '];
    assert(kw_return@ =~= grammar::kw_return());
    if !tag(src, p, &kw_return) {
        return err(p, ErrorKind::Tag);
    }
    let q = p + 7;
    let mut r = function_call_at(src, q);
    if r matches Err(Failure::Error { .. }) {
        r = expression_at(src, q);
    }
    if r matches Err(Failure::Error { .. }) {
        r = identifier_at(src, q);
    }
    match r {
        Err(e) => Err(e),
        Ok((t, v)) => Ok((t, Node::FunctionReturn { children: single(v) })),
    }
}

/// var_statement = space0 , ... , ";" , multispace0 ;
fn var_statement_at(src: &Source, p: usize) -> (r: Result<(usize, Node), Failure>)
    requires
        src.wf(),
        p <= src.chars@.len(),
    ensures
        res_view(r) == grammar::var_statement(src.chars@, p as int),
        bounded(r, p as int, src.chars@.len() as int),
    decreases src.chars@.len() - p, 1nat,
{
    let q = span(src, p, CharClass::Space);
    match variable_define_at(src, q) {
        Err(e) => Err(e),
        Ok((r, n)) => {
            if !tag1(src, r, ';') {
                return err(r, ErrorKind::Tag);
            }
            let t = span(src, r + 1, CharClass::MultiSpace);
            Ok((t, Node::Statement { children: single(n) }))
        },
    }
}

/// return_statement = space0 , ... , ";" , multispace0 ;
fn return_statement_at(src: &Source, p: usize) -> (r: Result<(usize, Node), Failure>)
    requires
        src.wf(),
        p <= src.chars@.len(),
    ensures
        res_view(r) == grammar::return_statement(src.chars@, p as int),
        bounded(r, p as int, src.chars@.len() as int),
    decreases src.chars@.len() - p, 1nat,
{
    let q = span(src, p, CharClass::Space);
    match function_return_at(src, q) {
        Err(e) => Err(e),
        Ok((r, n)) => {
            if !tag1(src, r, ';') {
                return err(r, ErrorKind::Tag);
            }
            let t = span(src, r + 1, CharClass::MultiSpace);
            Ok((t, Node::Statement { children: single(n) }))
        },
    }
}

/// {var_statement}
fn var_statements_at(src: &Source, p: usize) -> (r: Result<(usize, Vec<Node>), Failure>)
    requires
        src.wf(),
        p <= src.chars@.len(),
    ensures
        list_view(r) == grammar::var_statements(src.chars@, p as int),
        list_bounded(r, p as int, src.chars@.len() as int),
        decreases src.chars@.len() - p, 2nat,
{
    let mut acc: Vec<Node> = Vec::new();
    let mut i = p;
    proof {
        lemma_prepend_empty(grammar::var_statements(src.chars@, p as int));
    }
    loop
        invariant
            src.wf(),
            p <= i <= src.chars@.len(),
            grammar::var_statements(src.chars@, p as int) == prepend(nodes_view(acc@), grammar::var_statements(src.chars@, i as int)),
        decreases src.chars@.len() - i,
    {
        match var_statement_at(src, i) {
            Err(Failure::Overflow) => {
                return Err(Failure::Overflow);
            },
            Err(Failure::Error { .. }) => {
                proof {
                    lemma_prepend_done(nodes_view(acc@), i as int);
                }
                return Ok((i, acc));
            },
            Ok((q, n)) => {
                if q == i {
                    return Err(Failure::Error { pos: i, kind: ErrorKind::Many0 });
                }
                proof {
                    lemma_prepend_push(nodes_view(acc@), n@, grammar::var_statements(src.chars@, q as int));
                    lemma_nodes_view_push(acc@, n);
                }
                acc.push(n);
                i = q;
            },
        }
    }
}

/// statement = (var_statement | return_statement) , multispace0 ;
fn statement_at(src: &Source, p: usize) -> (r: Result<(usize, Node), Failure>)
    requires
        src.wf(),
        p <= src.chars@.len(),
    ensures
        res_view(r) == grammar::statement(src.chars@, p as int),
        bounded(r, p as int, src.chars@.len() as int),
{
    let mut r = var_statement_at(src, p);
    if r matches Err(Failure::Error { .. }) {
        r = return_statement_at(src, p);
    }
    match r {
        Err(e) => Err(e),
        Ok((q, n)) => Ok((span(src, q, CharClass::MultiSpace), n)),
    }
}

/// The statements after the first.
fn statements_rest_at(src: &Source, p: usize) -> (r: Result<(usize, Vec<Node>), Failure>)
    requires
        src.wf(),
        p <= src.chars@.len(),
    ensures
        list_view(r) == grammar::statements_rest(src.chars@, p as int),
        list_bounded(r, p as int, src.chars@.len() as int),
{
    let mut acc: Vec<Node> = Vec::new();
    let mut i = p;
    proof {
        lemma_prepend_empty(grammar::statements_rest(src.chars@, p as int));
    }
    loop
        invariant
            src.wf(),
            p <= i <= src.chars@.len(),
            grammar::statements_rest(src.chars@, p as int) == prepend(nodes_view(acc@), grammar::statements_rest(src.chars@, i as int)),
        decreases src.chars@.len() - i,
    {
        match statement_at(src, i) {
            Err(Failure::Overflow) => {
                return Err(Failure::Overflow);
            },
            Err(Failure::Error { .. }) => {
                proof {
                    lemma_prepend_done(nodes_view(acc@), i as int);
                }
                return Ok((i, acc));
            },
            Ok((q, n)) => {
                if q == i {
                    return Err(Failure::Error { pos: i, kind: ErrorKind::Many1 });
                }
                proof {
                    lemma_prepend_push(nodes_view(acc@), n@, grammar::statements_rest(src.chars@, q as int));
                    lemma_nodes_view_push(acc@, n);
                }
                acc.push(n);
                i = q;
            },
        }
    }
}

/// statement , {statement}
fn statements1_at(src: &Source, p: usize) -> (r: Result<(usize, Vec<Node>), Failure>)
    requires
        src.wf(),
        p <= src.chars@.len(),
    ensures
        list_view(r) == grammar::statements1(src.chars@, p as int),
        list_bounded(r, p as int, src.chars@.len() as int),
{
    match statement_at(src, p) {
        Err(e) => Err(e),
        Ok((q, n)) => match statements_rest_at(src, q) {
            Err(e) => Err(e),
            Ok((r, ns)) => {
                let mut v = single(n);
                append_nodes(&mut v, ns);
                Ok((r, v))
            },
        },
    }
}

/// function_definition = "fn " , identifier , "(" , {arguments} , ")" , space0 , "{" , multispace0 , statement , {statement} , "}" , multispace0 ;
fn function_definition_at(src: &Source, p: usize) -> (r: Result<(usize, Node), Failure>)
    requires
        src.wf(),
        p <= src.chars@.len(),
    ensures
        res_view(r) == grammar::function_definition(src.chars@, p as int),
        bounded(r, p as int, src.chars@.len() as int),
{
    let kw_fn: [char; 3] = ['f', 'n', ' '];
    assert(kw_fn@ =~= grammar::kw_fn());
    if !tag(src, p, &kw_fn) {
        return err(p, ErrorKind::Tag);
    }
    match identifier_at(src, p + 3) {
        Err(e) => Err(e),
        Ok((q, name)) => {
            if !tag1(src, q, '(') {
                return err(q, ErrorKind::Tag);
            }
            match arguments_list_at(src, q + 1) {
                Err(e) => Err(e),
                Ok((r, args)) => {
                    if !tag1(src, r, ')') {
                        return err(r, ErrorKind::Tag);
                    }
                    let r0 = span(src, r + 1, CharClass::Space);
                    if !tag1(src, r0, '{') {
                        return err(r0, ErrorKind::Tag);
                    }
                    let r1 = span(src, r0 + 1, CharClass::MultiSpace);
                    match statements1_at(src, r1) {
                        Err(e) => Err(e),
                        Ok((t, stmts)) => {
                            if !tag1(src, t, '}') {
                                return err(t, ErrorKind::Tag);
                            }
                            let mut children = single(name);
                            append_nodes(&mut children, args);
                            append_nodes(&mut children, stmts);
                            let end = span(src, t + 1, CharClass::MultiSpace);
                            Ok((end, Node::FunctionDefine { children }))
                        },
                    }
                },
            }
        },
    }
}

/// function_definition | statement | expression
fn program_item_at(src: &Source, p: usize) -> (r: Result<(usize, Node), Failure>)
    requires
        src.wf(),
        p <= src.chars@.len(),
    ensures
        res_view(r) == grammar::program_item(src.chars@, p as int),
        bounded(r, p as int, src.chars@.len() as int),
{
    let mut r = function_definition_at(src, p);
    if r matches Err(Failure::Error { .. }) {
        r = statement_at(src, p);
    }
    if r matches Err(Failure::Error { .. }) {
        r = expression_at(src, p);
    }
    r
}

/// The program items after the first.
fn program_items_rest_at(src: &Source, p: usize) -> (r: Result<(usize, Vec<Node>), Failure>)
    requires
        src.wf(),
        p <= src.chars@.len(),
    ensures
        list_view(r) == grammar::program_items_rest(src.chars@, p as int),
        list_bounded(r, p as int, src.chars@.len() as int),
{
    let mut acc: Vec<Node> = Vec::new();
    let mut i = p;
    proof {
        lemma_prepend_empty(grammar::program_items_rest(src.chars@, p as int));
    }
    loop
        invariant
            src.wf(),
            p <= i <= src.chars@.len(),
            grammar::program_items_rest(src.chars@, p as int) == prepend(nodes_view(acc@), grammar::program_items_rest(src.chars@, i as int)),
        decreases src.chars@.len() - i,
    {
        match program_item_at(src, i) {
            Err(Failure::Overflow) => {
                return Err(Failure::Overflow);
            },
            Err(Failure::Error { .. }) => {
                proof {
                    lemma_prepend_done(nodes_view(acc@), i as int);
                }
                return Ok((i, acc));
            },
            Ok((q, n)) => {
                if q == i {
                    return Err(Failure::Error { pos: i, kind: ErrorKind::Many1 });
                }
                proof {
                    lemma_prepend_push(nodes_view(acc@), n@, grammar::program_items_rest(src.chars@, q as int));
                    lemma_nodes_view_push(acc@, n);
                }
                acc.push(n);
                i = q;
            },
        }
    }
}

/// program = (function_definition | statement | expression) , {function_definition | statement | expression} ;
fn program_at(src: &Source, p: usize) -> (r: Result<(usize, Node), Failure>)
    requires
        src.wf(),
        p <= src.chars@.len(),
    ensures
        res_view(r) == grammar::program(src.chars@, p as int),
        bounded(r, p as int, src.chars@.len() as int),
{
    match program_item_at(src, p) {
        Err(e) => Err(e),
        Ok((q, n)) => match program_items_rest_at(src, q) {
            Err(e) => Err(e),
            Ok((r, ns)) => {
                let mut children = single(n);
                append_nodes(&mut children, ns);
                Ok((r, Node::Program { children }))
            },
        },
    }
}

/// A parse error: the input where the failed check stood, and its kind.
#[derive(Debug, PartialEq, Eq)]
pub struct ParseError<'a> {
    pub input: &'a str,
    pub kind: ErrorKind,
}

/// `r` is what `expected` says of `input`: the remaining input after the
/// recognized prefix and the tree, or the input from the error position and
/// the error's kind.
pub open spec fn parse_matches(
    input: Seq<char>,
    r: Result<(&str, Node), ParseError>,
    expected: Parsed,
) -> bool {
    match r {
        Ok((rest, n)) => {
            &&& expected matches Ok((q, sn))
            &&& 0 <= q <= input.len()
            &&& rest@ == input.subrange(q, input.len() as int)
            &&& n@ == sn
        },
        Err(e) => {
            &&& expected matches Err(Fail::Error(pos, k))
            &&& 0 <= pos <= input.len()
            &&& e.input@ == input.subrange(pos, input.len() as int)
            &&& e.kind == k
        },
    }
}

/// Turns a positional result into one over the source text.
fn finish<'a>(src: &Source<'a>, r: Result<(usize, Node), Failure>) -> (out: Result<
    (&'a str, Node),
    ParseError<'a>,
>)
    requires
        src.wf(),
        !(r matches Err(Failure::Overflow)),
        bounded(r, 0, src.chars@.len() as int),
    ensures
        parse_matches(src.text@, out, res_view(r)),
{
    let len = src.chars.len();
    match r {
        Ok((q, n)) => Ok((src.text.substring_char(q, len), n)),
        Err(Failure::Error { pos, kind }) => Err(
            ParseError { input: src.text.substring_char(pos, len), kind },
        ),
        Err(Failure::Overflow) => vstd::pervasive::unreached(),
    }
}

/// The rules that `try_parse` can parse by, one for each public parse
/// function.
#[derive(Debug, Clone, Copy, PartialEq, Eq, Structural)]
pub enum Rule {
    Identifier,
    Number,
    Boolean,
    String,
    FunctionCall,
    ParentheticalExpression,
    L4,
    L3Infix,
    L3,
    L2Infix,
    L2,
    L1Infix,
    L1,
    MathExpression,
    IfExpression,
    IfClause,
    ElseIfClause,
    ElseClause,
    Expression,
    VarStatement,
    ReturnStatement,
    Statement,
    FunctionReturn,
    VariableDefine,
    Arguments,
    OtherArg,
    FunctionDefinition,
    Program,
}

/// What the grammar gives for `rule` at the start of `s`.
pub open spec fn rule_result(rule: Rule, s: Seq<char>) -> Parsed {
    match rule {
        Rule::Identifier => grammar::identifier(s, 0),
        Rule::Number => grammar::number(s, 0),
        Rule::Boolean => grammar::boolean(s, 0),
        Rule::String => grammar::string(s, 0),
        Rule::FunctionCall => grammar::function_call(s, 0),
        Rule::ParentheticalExpression => grammar::parenthetical_expression(s, 0),
        Rule::L4 => grammar::l4(s, 0),
        Rule::L3Infix => grammar::infix(s, 0, 3),
        Rule::L3 => grammar::l3(s, 0),
        Rule::L2Infix => grammar::infix(s, 0, 2),
        Rule::L2 => grammar::l2(s, 0),
        Rule::L1Infix => grammar::infix(s, 0, 1),
        Rule::L1 => grammar::l1(s, 0),
        Rule::MathExpression => grammar::math_expression(s, 0),
        Rule::IfExpression => grammar::if_expression(s, 0),
        Rule::IfClause => grammar::if_clause(s, 0),
        Rule::ElseIfClause => grammar::else_if_clause(s, 0),
        Rule::ElseClause => grammar::else_clause(s, 0),
        Rule::Expression => grammar::expression(s, 0),
        Rule::VarStatement => grammar::var_statement(s, 0),
        Rule::ReturnStatement => grammar::return_statement(s, 0),
        Rule::Statement => grammar::statement(s, 0),
        Rule::FunctionReturn => grammar::function_return(s, 0),
        Rule::VariableDefine => grammar::variable_define(s, 0),
        Rule::Arguments => grammar::arguments(s, 0),
        Rule::OtherArg => grammar::other_arg(s, 0),
        Rule::FunctionDefinition => grammar::function_definition(s, 0),
        Rule::Program => grammar::program(s, 0),
    }
}

fn rule_at(src: &Source, rule: Rule) -> (r: Result<(usize, Node), Failure>)
    requires
        src.wf(),
    ensures
        res_view(r) == rule_result(rule, src.chars@),
        bounded(r, 0, src.chars@.len() as int),
{
    match rule {
        Rule::Identifier => identifier_at(src, 0),
        Rule::Number => number_at(src, 0),
        Rule::Boolean => boolean_at(src, 0),
        Rule::String => string_at(src, 0),
        Rule::FunctionCall => function_call_at(src, 0),
        Rule::ParentheticalExpression => parenthetical_at(src, 0),
        Rule::L4 => l4_at(src, 0),
        Rule::L3Infix => infix_at(src, 0, 3),
        Rule::L3 => l3_at(src, 0),
        Rule::L2Infix => infix_at(src, 0, 2),
        Rule::L2 => l2_at(src, 0),
        Rule::L1Infix => infix_at(src, 0, 1),
        Rule::L1 => l1_at(src, 0),
        Rule::MathExpression => math_expression_at(src, 0),
        Rule::IfExpression => if_expression_at(src, 0),
        Rule::IfClause => if_clause_at(src, 0),
        Rule::ElseIfClause => else_if_clause_at(src, 0),
        Rule::ElseClause => else_clause_at(src, 0),
        Rule::Expression => expression_at(src, 0),
        Rule::VarStatement => var_statement_at(src, 0),
        Rule::ReturnStatement => return_statement_at(src, 0),
        Rule::Statement => statement_at(src, 0),
        Rule::FunctionReturn => function_return_at(src, 0),
        Rule::VariableDefine => variable_define_at(src, 0),
        Rule::Arguments => arguments_at(src, 0),
        Rule::OtherArg => other_arg_at(src, 0),
        Rule::FunctionDefinition => function_definition_at(src, 0),
        Rule::Program => program_at(src, 0),
    }
}

/// Parses by `rule` at the start of `input`, as the public function of that
/// rule does, or returns `None` where the input holds a number literal too
/// large for `i32` that the rule reads.
pub fn try_parse(rule: Rule, input: &str) -> (r: Option<Result<(&str, Node), ParseError<'_>>>)
    ensures
        r is None <==> rule_result(rule, input@) matches Err(Fail::Overflow),
        r matches Some(res) ==> parse_matches(input@, res, rule_result(rule, input@)),
{
    let src = Source::new(input);
    let res = rule_at(&src, rule);
    if res matches Err(Failure::Overflow) {
        return None;
    }
    Some(finish(&src, res))
}

/// Parses a program, or returns `None` where a number literal in it is too
/// large for `i32`.
pub fn try_program(input: &str) -> (r: Option<Result<(&str, Node), ParseError<'_>>>)
    ensures
        r is None <==> grammar::program(input@, 0) matches Err(Fail::Overflow),
        r matches Some(res) ==> parse_matches(input@, res, grammar::program(input@, 0)),
{
    let src = Source::new(input);
    let res = program_at(&src, 0);
    if res matches Err(Failure::Overflow) {
        return None;
    }
    Some(finish(&src, res))
}

/// Parses `identifier` at the start of `input`, by the rule `grammar::identifier`:
/// `identifier = alpha , {alnum} ;`
/// On success, returns the input that follows and the tree.
pub fn identifier(input: &str) -> (r: Result<(&str, Node), ParseError<'_>>)
    ensures
        parse_matches(input@, r, grammar::identifier(input@, 0)),
{
    let src = Source::new(input);
    let res = identifier_at(&src, 0);
    finish(&src, res)
}

/// Parses `number` at the start of `input`, by the rule `grammar::number`:
/// `number = digit , {digit} ;   (a value above `i32::MAX` is an overflow)`
/// On success, returns the input that follows and the tree.
pub fn number(input: &str) -> (r: Result<(&str, Node), ParseError<'_>>)
    requires
        !(grammar::number(input@, 0) matches Err(Fail::Overflow)),
    ensures
        parse_matches(input@, r, grammar::number(input@, 0)),
{
    let src = Source::new(input);
    let res = number_at(&src, 0);
    finish(&src, res)
}

/// Parses `boolean` at the start of `input`, by the rule `grammar::boolean`:
/// `boolean = "true" | "false" ;`
/// On success, returns the input that follows and the tree.
pub fn boolean(input: &str) -> (r: Result<(&str, Node), ParseError<'_>>)
    ensures
        parse_matches(input@, r, grammar::boolean(input@, 0)),
{
    let src = Source::new(input);
    let res = boolean_at(&src, 0);
    finish(&src, res)
}

/// Parses `string` at the start of `input`, by the rule `grammar::string`:
/// `string = "\"" , (alnum | " ") , {alnum | " "} , "\"" ;`
/// On success, returns the input that follows and the tree.
pub fn string(input: &str) -> (r: Result<(&str, Node), ParseError<'_>>)
    ensures
        parse_matches(input@, r, grammar::string(input@, 0)),
{
    let src = Source::new(input);
    let res = string_at(&src, 0);
    finish(&src, res)
}

/// Parses `function_call` at the start of `input`, by the rule `grammar::function_call`:
/// `function_call = identifier , "(" , {arguments} , ")" ;`
/// On success, returns the input that follows and the tree.
pub fn function_call(input: &str) -> (r: Result<(&str, Node), ParseError<'_>>)
    requires
        !(grammar::function_call(input@, 0) matches Err(Fail::Overflow)),
    ensures
        parse_matches(input@, r, grammar::function_call(input@, 0)),
{
    let src = Source::new(input);
    let res = function_call_at(&src, 0);
    finish(&src, res)
}

/// Parses `parenthetical_expression` at the start of `input`, by the rule `grammar::parenthetical_expression`:
/// `parenthetical_expression = space0 , "(" , space0 , l1 , space0 , ")" , space0 ;`
/// On success, returns the input that follows and the tree.
pub fn parenthetical_expression(input: &str) -> (r: Result<(&str, Node), ParseError<'_>>)
    requires
        !(grammar::parenthetical_expression(input@, 0) matches Err(Fail::Overflow)),
    ensures
        parse_matches(input@, r, grammar::parenthetical_expression(input@, 0)),
{
    let src = Source::new(input);
    let res = parenthetical_at(&src, 0);
    finish(&src, res)
}

/// Parses `l4` at the start of `input`, by the rule `grammar::l4`:
/// `l4 = function_call | number | identifier | parenthetical_expression ;`
/// On success, returns the input that follows and the tree.
pub fn l4(input: &str) -> (r: Result<(&str, Node), ParseError<'_>>)
    requires
        !(grammar::l4(input@, 0) matches Err(Fail::Overflow)),
    ensures
        parse_matches(input@, r, grammar::l4(input@, 0)),
{
    let src = Source::new(input);
    let res = l4_at(&src, 0);
    finish(&src, res)
}

/// Parses `l3_infix` at the start of `input`, by the rule `grammar::infix` at level 3:
/// `l3_infix = space0 , "^" , space0 , l4 ;`
/// On success, returns the input that follows and the tree.
pub fn l3_infix(input: &str) -> (r: Result<(&str, Node), ParseError<'_>>)
    requires
        !(grammar::infix(input@, 0, 3) matches Err(Fail::Overflow)),
    ensures
        parse_matches(input@, r, grammar::infix(input@, 0, 3)),
{
    let src = Source::new(input);
    let res = infix_at(&src, 0, 3);
    finish(&src, res)
}

/// Parses `l3` at the start of `input`, by the rule `grammar::l3`:
/// `l3 = l4 , {l3_infix} ;   (the operators fold to the left)`
/// On success, returns the input that follows and the tree.
pub fn l3(input: &str) -> (r: Result<(&str, Node), ParseError<'_>>)
    requires
        !(grammar::l3(input@, 0) matches Err(Fail::Overflow)),
    ensures
        parse_matches(input@, r, grammar::l3(input@, 0)),
{
    let src = Source::new(input);
    let res = l3_at(&src, 0);
    finish(&src, res)
}

/// Parses `l2_infix` at the start of `input`, by the rule `grammar::infix` at level 2:
/// `l2_infix = space0 , ("*" | "/") , space0 , l2 ;`
/// On success, returns the input that follows and the tree.
pub fn l2_infix(input: &str) -> (r: Result<(&str, Node), ParseError<'_>>)
    requires
        !(grammar::infix(input@, 0, 2) matches Err(Fail::Overflow)),
    ensures
        parse_matches(input@, r, grammar::infix(input@, 0, 2)),
{
    let src = Source::new(input);
    let res = infix_at(&src, 0, 2);
    finish(&src, res)
}

/// Parses `l2` at the start of `input`, by the rule `grammar::l2`:
/// `l2 = l3 , {l2_infix} ;   (the operators fold to the left)`
/// On success, returns the input that follows and the tree.
pub fn l2(input: &str) -> (r: Result<(&str, Node), ParseError<'_>>)
    requires
        !(grammar::l2(input@, 0) matches Err(Fail::Overflow)),
    ensures
        parse_matches(input@, r, grammar::l2(input@, 0)),
{
    let src = Source::new(input);
    let res = l2_at(&src, 0);
    finish(&src, res)
}

/// Parses `l1_infix` at the start of `input`, by the rule `grammar::infix` at level 1:
/// `l1_infix = space0 , ("+" | "-") , space0 , l2 ;`
/// On success, returns the input that follows and the tree.
pub fn l1_infix(input: &str) -> (r: Result<(&str, Node), ParseError<'_>>)
    requires
        !(grammar::infix(input@, 0, 1) matches Err(Fail::Overflow)),
    ensures
        parse_matches(input@, r, grammar::infix(input@, 0, 1)),
{
    let src = Source::new(input);
    let res = infix_at(&src, 0, 1);
    finish(&src, res)
}

/// Parses `l1` at the start of `input`, by the rule `grammar::l1`:
/// `l1 = l2 , {l1_infix} ;   (the operators fold to the left)`
/// On success, returns the input that follows and the tree.
pub fn l1(input: &str) -> (r: Result<(&str, Node), ParseError<'_>>)
    requires
        !(grammar::l1(input@, 0) matches Err(Fail::Overflow)),
    ensures
        parse_matches(input@, r, grammar::l1(input@, 0)),
{
    let src = Source::new(input);
    let res = l1_at(&src, 0);
    finish(&src, res)
}

/// Parses `math_expression` at the start of `input`, by the rule `grammar::math_expression`:
/// `math_expression = l1 ;`
/// On success, returns the input that follows and the tree.
pub fn math_expression(input: &str) -> (r: Result<(&str, Node), ParseError<'_>>)
    requires
        !(grammar::math_expression(input@, 0) matches Err(Fail::Overflow)),
    ensures
        parse_matches(input@, r, grammar::math_expression(input@, 0)),
{
    let src = Source::new(input);
    let res = math_expression_at(&src, 0);
    finish(&src, res)
}

/// Parses `if_expression` at the start of `input`, by the rule `grammar::if_expression`:
/// `if_expression = if_clause , {else_if_clause} , [else_clause] ;`
/// On success, returns the input that follows and the tree.
pub fn if_expression(input: &str) -> (r: Result<(&str, Node), ParseError<'_>>)
    requires
        !(grammar::if_expression(input@, 0) matches Err(Fail::Overflow)),
    ensures
        parse_matches(input@, r, grammar::if_expression(input@, 0)),
{
    let src = Source::new(input);
    let res = if_expression_at(&src, 0);
    finish(&src, res)
}

/// Parses `if_clause` at the start of `input`, by the rule `grammar::if_clause`:
/// `if_clause = "if" , space1 , boolean , block ;`
/// where `block = multispace0 , "{" , multispace0 , {var_statement} , return_statement , "}" , multispace0 ;`
/// On success, returns the input that follows and the tree.
pub fn if_clause(input: &str) -> (r: Result<(&str, Node), ParseError<'_>>)
    requires
        !(grammar::if_clause(input@, 0) matches Err(Fail::Overflow)),
    ensures
        parse_matches(input@, r, grammar::if_clause(input@, 0)),
{
    let src = Source::new(input);
    let res = if_clause_at(&src, 0);
    finish(&src, res)
}

/// Parses `else_if_clause` at the start of `input`, by the rule `grammar::else_if_clause`:
/// `else_if_clause = "else if" , space1 , boolean , block ;`
/// where `block = multispace0 , "{" , multispace0 , {var_statement} , return_statement , "}" , multispace0 ;`
/// On success, returns the input that follows and the tree.
pub fn else_if_clause(input: &str) -> (r: Result<(&str, Node), ParseError<'_>>)
    requires
        !(grammar::else_if_clause(input@, 0) matches Err(Fail::Overflow)),
    ensures
        parse_matches(input@, r, grammar::else_if_clause(input@, 0)),
{
    let src = Source::new(input);
    let res = else_if_clause_at(&src, 0);
    finish(&src, res)
}

/// Parses `else_clause` at the start of `input`, by the rule `grammar::else_clause`:
/// `else_clause = "else" , block ;`
/// where `block = multispace0 , "{" , multispace0 , {var_statement} , return_statement , "}" , multispace0 ;`
/// On success, returns the input that follows and the tree.
pub fn else_clause(input: &str) -> (r: Result<(&str, Node), ParseError<'_>>)
    requires
        !(grammar::else_clause(input@, 0) matches Err(Fail::Overflow)),
    ensures
        parse_matches(input@, r, grammar::else_clause(input@, 0)),
{
    let src = Source::new(input);
    let res = else_clause_at(&src, 0);
    finish(&src, res)
}

/// Parses `expression` at the start of `input`, by the rule `grammar::expression`:
/// `expression = if_expression | boolean | math_expression | function_call | number | string | identifier ;`
/// On success, returns the input that follows and the tree.
pub fn expression(input: &str) -> (r: Result<(&str, Node), ParseError<'_>>)
    requires
        !(grammar::expression(input@, 0) matches Err(Fail::Overflow)),
    ensures
        parse_matches(input@, r, grammar::expression(input@, 0)),
{
    let src = Source::new(input);
    let res = expression_at(&src, 0);
    finish(&src, res)
}

/// Parses `var_statement` at the start of `input`, by the rule `grammar::var_statement`:
/// `var_statement = space0 , variable_define , ";" , multispace0 ;`
/// On success, returns the input that follows and the tree.
pub fn var_statement(input: &str) -> (r: Result<(&str, Node), ParseError<'_>>)
    requires
        !(grammar::var_statement(input@, 0) matches Err(Fail::Overflow)),
    ensures
        parse_matches(input@, r, grammar::var_statement(input@, 0)),
{
    let src = Source::new(input);
    let res = var_statement_at(&src, 0);
    finish(&src, res)
}

/// Parses `return_statement` at the start of `input`, by the rule `grammar::return_statement`:
/// `return_statement = space0 , function_return , ";" , multispace0 ;`
/// On success, returns the input that follows and the tree.
pub fn return_statement(input: &str) -> (r: Result<(&str, Node), ParseError<'_>>)
    requires
        !(grammar::return_statement(input@, 0) matches Err(Fail::Overflow)),
    ensures
        parse_matches(input@, r, grammar::return_statement(input@, 0)),
{
    let src = Source::new(input);
    let res = return_statement_at(&src, 0);
    finish(&src, res)
}

/// Parses `statement` at the start of `input`, by the rule `grammar::statement`:
/// `statement = (var_statement | return_statement) , multispace0 ;`
/// On success, returns the input that follows and the tree.
pub fn statement(input: &str) -> (r: Result<(&str, Node), ParseError<'_>>)
    requires
        !(grammar::statement(input@, 0) matches Err(Fail::Overflow)),
    ensures
        parse_matches(input@, r, grammar::statement(input@, 0)),
{
    let src = Source::new(input);
    let res = statement_at(&src, 0);
    finish(&src, res)
}

/// Parses `function_return` at the start of `input`, by the rule `grammar::function_return`:
/// `function_return = "return " , (function_call | expression | identifier) ;`
/// On success, returns the input that follows and the tree.
pub fn function_return(input: &str) -> (r: Result<(&str, Node), ParseError<'_>>)
    requires
        !(grammar::function_return(input@, 0) matches Err(Fail::Overflow)),
    ensures
        parse_matches(input@, r, grammar::function_return(input@, 0)),
{
    let src = Source::new(input);
    let res = function_return_at(&src, 0);
    finish(&src, res)
}

/// Parses `variable_define` at the start of `input`, by the rule `grammar::variable_define`:
/// `variable_define = "let" , space1 , identifier , space0 , "=" , space0 , expression ;`
/// On success, returns the input that follows and the tree.
pub fn variable_define(input: &str) -> (r: Result<(&str, Node), ParseError<'_>>)
    requires
        !(grammar::variable_define(input@, 0) matches Err(Fail::Overflow)),
    ensures
        parse_matches(input@, r, grammar::variable_define(input@, 0)),
{
    let src = Source::new(input);
    let res = variable_define_at(&src, 0);
    finish(&src, res)
}

/// Parses `arguments` at the start of `input`, by the rule `grammar::arguments`:
/// `arguments = expression , {other_arg} ;`
/// On success, returns the input that follows and the tree.
pub fn arguments(input: &str) -> (r: Result<(&str, Node), ParseError<'_>>)
    requires
        !(grammar::arguments(input@, 0) matches Err(Fail::Overflow)),
    ensures
        parse_matches(input@, r, grammar::arguments(input@, 0)),
{
    let src = Source::new(input);
    let res = arguments_at(&src, 0);
    finish(&src, res)
}

/// Parses `other_arg` at the start of `input`, by the rule `grammar::other_arg`:
/// `other_arg = "," , space0 , expression ;`
/// On success, returns the input that follows and the tree.
pub fn other_arg(input: &str) -> (r: Result<(&str, Node), ParseError<'_>>)
    requires
        !(grammar::other_arg(input@, 0) matches Err(Fail::Overflow)),
    ensures
        parse_matches(input@, r, grammar::other_arg(input@, 0)),
{
    let src = Source::new(input);
    let res = other_arg_at(&src, 0);
    finish(&src, res)
}

/// Parses `function_definition` at the start of `input`, by the rule `grammar::function_definition`:
/// `function_definition = "fn " , identifier , "(" , {arguments} , ")" , space0 , "{" , multispace0 , statement , {statement} , "}" , multispace0 ;`
/// On success, returns the input that follows and the tree.
pub fn function_definition(input: &str) -> (r: Result<(&str, Node), ParseError<'_>>)
    requires
        !(grammar::function_definition(input@, 0) matches Err(Fail::Overflow)),
    ensures
        parse_matches(input@, r, grammar::function_definition(input@, 0)),
{
    let src = Source::new(input);
    let res = function_definition_at(&src, 0);
    finish(&src, res)
}

/// Parses `program` at the start of `input`, by the rule `grammar::program`:
/// `program = (function_definition | statement | expression) , {function_definition | statement | expression} ;`
/// On success, returns the input that follows and the tree.
pub fn program(input: &str) -> (r: Result<(&str, Node), ParseError<'_>>)
    requires
        !(grammar::program(input@, 0) matches Err(Fail::Overflow)),
    ensures
        parse_matches(input@, r, grammar::program(input@, 0)),
{
    let src = Source::new(input);
    let res = program_at(&src, 0);
    finish(&src, res)
}

} // verus!
