//! The language's grammar, stated over character sequences.
//!
//! Every rule reads `s` from position `p`. It either succeeds with the
//! position just after what it recognized and the tree it built, fails with
//! the position where it gave up and the kind of check that failed, or meets a
//! number literal too large for `i32` (`Fail::Overflow`), where evaluation of
//! the rule stops.
//!
//! Repetition never loops on an empty match: an item that succeeds without
//! consuming input is an error of kind `Many0` (or `Many1` after the first
//! item of a non-empty repetition). Alternatives are tried in order, and when
//! all fail the failure of the last one is reported.
//!
//! A rule that goes on after a sub-rule's result checks that the result lies
//! between its own position and the end of `s`. Every result does; the check
//! only makes the termination of the definitions evident, and its other
//! branch is never taken.
use crate::node::SNode;
use vstd::prelude::*;

verus! {

/// The kinds of check whose failure a parse error reports.
#[derive(Debug, Clone, Copy, PartialEq, Eq, Structural)]
pub enum ErrorKind {
    Tag,
    Digit,
    AlphaNumeric,
    Space,
    Many0,
    Many1,
}

/// Why a rule did not succeed.
pub enum Fail {
    Error(int, ErrorKind),
    Overflow,
}

/// What a rule returns.
pub type Parsed = Result<(int, SNode), Fail>;

/// What a repetition returns.
pub type ParsedList = Result<(int, Seq<SNode>), Fail>;

/// The classes of characters that the grammar takes in runs.
#[derive(Clone, Copy, PartialEq, Eq, Structural)]
pub enum CharClass {
    AlphaNumeric,
    Digit,
    Space,
    MultiSpace,
    StringBody,
}

pub open spec fn is_alpha(c: char) -> bool {
    ('a' <= c && c <= 'z') || ('A' <= c && c <= 'Z')
}

pub open spec fn is_digit(c: char) -> bool {
    '0' <= c && c <= '9'
}

pub open spec fn in_class(c: char, k: CharClass) -> bool {
    match k {
        CharClass::AlphaNumeric => is_alpha(c) || is_digit(c),
        CharClass::Digit => is_digit(c),
        CharClass::Space => c == ' ' || c == '\t',
        CharClass::MultiSpace => c == ' ' || c == '\t' || c == '\r' || c == '\n',
        CharClass::StringBody => is_alpha(c) || is_digit(c) || c == ' ',
    }
}

/// The end of the longest run of characters of class `k` that starts at `p`.
pub open spec fn span_end(s: Seq<char>, p: int, k: CharClass) -> int
    decreases s.len() - p,
{
    if 0 <= p < s.len() && in_class(s[p], k) {
        span_end(s, p + 1, k)
    } else {
        p
    }
}

pub proof fn lemma_span_end_bounds(s: Seq<char>, p: int, k: CharClass)
    requires
        0 <= p <= s.len(),
    ensures
        p <= span_end(s, p, k) <= s.len(),
        forall|i: int| p <= i < span_end(s, p, k) ==> in_class(#[trigger] s[i], k),
        span_end(s, p, k) < s.len() ==> !in_class(s[span_end(s, p, k)], k),
    decreases s.len() - p,
{
    if 0 <= p < s.len() && in_class(s[p], k) {
        lemma_span_end_bounds(s, p + 1, k);
    }
}

/// `t` stands in `s` at position `p`.
pub open spec fn has_tag(s: Seq<char>, p: int, t: Seq<char>) -> bool {
    0 <= p && p + t.len() <= s.len() && s.subrange(p, p + t.len()) == t
}

/// The value of a run of decimal digits.
pub open spec fn digits_value(d: Seq<char>) -> int
    decreases d.len(),
{
    if d.len() == 0 {
        0
    } else {
        digits_value(d.drop_last()) * 10 + (d.last() as int - '0' as int)
    }
}

pub open spec fn error(p: int, k: ErrorKind) -> Parsed {
    Err(Fail::Error(p, k))
}

pub open spec fn list_error(p: int, k: ErrorKind) -> ParsedList {
    Err(Fail::Error(p, k))
}

pub open spec fn kw_true() -> Seq<char> {
    seq!['t', 'r', 'u', 'e']
}

pub open spec fn kw_false() -> Seq<char> {
    seq!['f', 'a', 'l', 's', 'e']
}

pub open spec fn kw_if() -> Seq<char> {
    seq!['i', 'f']
}

pub open spec fn kw_else_if() -> Seq<char> {
    seq!['e', 'l', 's', 'e', ' ', 'i', 'f']
}

pub open spec fn kw_else() -> Seq<char> {
    seq!['e', 'l', 's', 'e']
}

pub open spec fn kw_let() -> Seq<char> {
    seq!['l', 'e', 't']
}

pub open spec fn kw_return() -> Seq<char> {
    seq!['r', 'e', 't', 'u', 'r', 'n', ' ']
}

pub open spec fn kw_fn() -> Seq<char> {
    seq!['f', 'n', ' ']
}

pub open spec fn one(c: char) -> Seq<char> {
    seq![c]
}

// ---------------------------------------------------------------------------
// Terminals

/// identifier = alpha , {alnum} ;
/// A failure has the kind `AlphaNumeric`.
pub open spec fn identifier(s: Seq<char>, p: int) -> Parsed {
    if 0 <= p < s.len() && is_alpha(s[p]) {
        let q = span_end(s, p, CharClass::AlphaNumeric);
        Ok((q, SNode::Identifier(s.subrange(p, q))))
    } else {
        error(p, ErrorKind::AlphaNumeric)
    }
}

/// number = digit , {digit} ;   (a value above `i32::MAX` is an overflow)
pub open spec fn number(s: Seq<char>, p: int) -> Parsed {
    let q = span_end(s, p, CharClass::Digit);
    if q == p {
        error(p, ErrorKind::Digit)
    } else if digits_value(s.subrange(p, q)) > i32::MAX {
        Err(Fail::Overflow)
    } else {
        Ok((q, SNode::Number(digits_value(s.subrange(p, q)) as i32)))
    }
}

/// boolean = "true" | "false" ;
pub open spec fn boolean(s: Seq<char>, p: int) -> Parsed {
    if has_tag(s, p, kw_true()) {
        Ok((p + 4, SNode::Bool(true)))
    } else if has_tag(s, p, kw_false()) {
        Ok((p + 5, SNode::Bool(false)))
    } else {
        error(p, ErrorKind::Tag)
    }
}

/// string = "\"" , (alnum | " ") , {alnum | " "} , "\"" ;
pub open spec fn string(s: Seq<char>, p: int) -> Parsed {
    if !has_tag(s, p, one('"')) {
        error(p, ErrorKind::Tag)
    } else {
        let q = span_end(s, p + 1, CharClass::StringBody);
        if q == p + 1 {
            error(p + 1, ErrorKind::Tag)
        } else if !has_tag(s, q, one('"')) {
            error(q, ErrorKind::Tag)
        } else {
            Ok((q + 1, SNode::String(s.subrange(p + 1, q))))
        }
    }
}

pub proof fn lemma_terminal_bounds(s: Seq<char>, p: int)
    requires
        0 <= p <= s.len(),
    ensures
        identifier(s, p) matches Ok((q, _)) ==> p < q <= s.len(),
        number(s, p) matches Ok((q, _)) ==> p < q <= s.len(),
        boolean(s, p) matches Ok((q, _)) ==> p < q <= s.len(),
        string(s, p) matches Ok((q, _)) ==> p < q <= s.len(),
{
    lemma_span_end_bounds(s, p, CharClass::AlphaNumeric);
    lemma_span_end_bounds(s, p, CharClass::Digit);
    if has_tag(s, p, one('"')) {
        lemma_span_end_bounds(s, p + 1, CharClass::StringBody);
    }
}

/// Folds the operator-and-operand pairs of a tail into a left-nested tree.
pub open spec fn fold_infix(head: SNode, tail: Seq<SNode>) -> SNode
    decreases tail.len(),
{
    if tail.len() == 0 {
        head
    } else {
        let h = match tail[0] {
            SNode::MathExpression(name, children) => SNode::MathExpression(
                name,
                seq![head] + children,
            ),
            _ => head,
        };
        fold_infix(h, tail.drop_first())
    }
}

// ---------------------------------------------------------------------------
// Nonterminals. The second measure of `decreases` orders the rules that can
// call each other at the same position.

/// function_call = identifier , "(" , {arguments} , ")" ;
pub open spec fn function_call(s: Seq<char>, p: int) -> Parsed
    decreases s.len() - p, 0nat,
{
    match identifier(s, p) {
        Err(e) => Err(e),
        Ok((q, _)) => if !has_tag(s, q, one('(')) {
            error(q, ErrorKind::Tag)
        } else {
            proof {
                lemma_span_end_bounds(s, p, CharClass::AlphaNumeric);
            }
            match arguments_list(s, q + 1) {
                Err(e) => Err(e),
                Ok((r, args)) => if !has_tag(s, r, one(')')) {
                    error(r, ErrorKind::Tag)
                } else {
                    Ok((r + 1, SNode::FunctionCall(s.subrange(p, q), args)))
                },
            }
        },
    }
}

/// {arguments}
pub open spec fn arguments_list(s: Seq<char>, p: int) -> ParsedList
    decreases s.len() - p, 8nat,
{
    match arguments(s, p) {
        Err(Fail::Overflow) => Err(Fail::Overflow),
        Err(Fail::Error(..)) => Ok((p, seq![])),
        Ok((q, n)) => if q == p {
            list_error(p, ErrorKind::Many0)
        } else if p < q <= s.len() {
            match arguments_list(s, q) {
                Err(e) => Err(e),
                Ok((r, ns)) => Ok((r, seq![n] + ns)),
            }
        } else {
            Ok((q, seq![n]))
        },
    }
}

/// arguments = expression , {other_arg} ;
pub open spec fn arguments(s: Seq<char>, p: int) -> Parsed
    decreases s.len() - p, 7nat,
{
    match expression(s, p) {
        Err(e) => Err(e),
        Ok((q, arg)) => if p <= q <= s.len() {
            match other_args(s, q) {
                Err(e) => Err(e),
                Ok((r, others)) => Ok((r, SNode::FunctionArguments(seq![arg] + others))),
            }
        } else {
            Ok((q, SNode::FunctionArguments(seq![arg])))
        },
    }
}

/// {other_arg}
pub open spec fn other_args(s: Seq<char>, p: int) -> ParsedList
    decreases s.len() - p, 1nat,
{
    match other_arg(s, p) {
        Err(Fail::Overflow) => Err(Fail::Overflow),
        Err(Fail::Error(..)) => Ok((p, seq![])),
        Ok((q, n)) => if q == p {
            list_error(p, ErrorKind::Many0)
        } else if p < q <= s.len() {
            match other_args(s, q) {
                Err(e) => Err(e),
                Ok((r, ns)) => Ok((r, seq![n] + ns)),
            }
        } else {
            Ok((q, seq![n]))
        },
    }
}

/// other_arg = "," , space0 , expression ;
pub open spec fn other_arg(s: Seq<char>, p: int) -> Parsed
    decreases s.len() - p, 0nat,
{
    if !has_tag(s, p, one(',')) {
        error(p, ErrorKind::Tag)
    } else {
        proof {
            lemma_span_end_bounds(s, p + 1, CharClass::Space);
        }
        expression(s, span_end(s, p + 1, CharClass::Space))
    }
}

/// parenthetical_expression = space0 , "(" , space0 , l1 , space0 , ")" , space0 ;
pub open spec fn parenthetical_expression(s: Seq<char>, p: int) -> Parsed
    decreases s.len() - p, 0nat,
{
    if !(0 <= p <= s.len()) {
        error(p, ErrorKind::Tag)
    } else {
        let q = span_end(s, p, CharClass::Space);
        if !has_tag(s, q, one('(')) {
            error(q, ErrorKind::Tag)
        } else {
            proof {
                lemma_span_end_bounds(s, p, CharClass::Space);
                lemma_span_end_bounds(s, q + 1, CharClass::Space);
            }
            match l1(s, span_end(s, q + 1, CharClass::Space)) {
                Err(e) => Err(e),
                Ok((t, e)) => {
                    let t0 = span_end(s, t, CharClass::Space);
                    if !has_tag(s, t0, one(')')) {
                        error(t0, ErrorKind::Tag)
                    } else {
                        Ok((span_end(s, t0 + 1, CharClass::Space), e))
                    }
                },
            }
        }
    }
}

/// l4 = function_call | number | identifier | parenthetical_expression ;
pub open spec fn l4(s: Seq<char>, p: int) -> Parsed
    decreases s.len() - p, 1nat,
{
    match function_call(s, p) {
        Err(Fail::Error(..)) => match number(s, p) {
            Err(Fail::Error(..)) => match identifier(s, p) {
                Err(Fail::Error(..)) => parenthetical_expression(s, p),
                r => r,
            },
            r => r,
        },
        r => r,
    }
}

/// One operator and its right operand, by `level`:
/// l3_infix = space0 , "^" , space0 , l4 ;                (level 3)
/// l2_infix = space0 , ("*" | "/") , space0 , l2 ;        (level 2)
/// l1_infix = space0 , ("+" | "-") , space0 , l2 ;        (level 1)
pub open spec fn infix(s: Seq<char>, p: int, level: nat) -> Parsed
    decreases s.len() - p, 0nat,
{
    if !(0 <= p <= s.len()) {
        error(p, ErrorKind::Tag)
    } else {
        let q = span_end(s, p, CharClass::Space);
        let op_ok = if level == 3 {
            has_tag(s, q, one('^'))
        } else if level == 2 {
            has_tag(s, q, one('*')) || has_tag(s, q, one('/'))
        } else {
            has_tag(s, q, one('+')) || has_tag(s, q, one('-'))
        };
        if !op_ok {
            error(q, ErrorKind::Tag)
        } else {
            proof {
                lemma_span_end_bounds(s, p, CharClass::Space);
                lemma_span_end_bounds(s, q + 1, CharClass::Space);
            }
            let r = span_end(s, q + 1, CharClass::Space);
            let operand = if level == 3 {
                l4(s, r)
            } else {
                l2(s, r)
            };
            match operand {
                Err(e) => Err(e),
                Ok((t, a)) => Ok((t, SNode::MathExpression(seq![s[q]], seq![a]))),
            }
        }
    }
}

/// {infix}
pub open spec fn infix_tail(s: Seq<char>, p: int, level: nat) -> ParsedList
    decreases s.len() - p, 1nat,
{
    match infix(s, p, level) {
        Err(Fail::Overflow) => Err(Fail::Overflow),
        Err(Fail::Error(..)) => Ok((p, seq![])),
        Ok((q, n)) => if q == p {
            list_error(p, ErrorKind::Many0)
        } else if p < q <= s.len() {
            match infix_tail(s, q, level) {
                Err(e) => Err(e),
                Ok((r, ns)) => Ok((r, seq![n] + ns)),
            }
        } else {
            Ok((q, seq![n]))
        },
    }
}

/// l3 = l4 , {l3_infix} ;   (the operators fold to the left)
pub open spec fn l3(s: Seq<char>, p: int) -> Parsed
    decreases s.len() - p, 2nat,
{
    match l4(s, p) {
        Err(e) => Err(e),
        Ok((q, head)) => if p <= q <= s.len() {
            match infix_tail(s, q, 3) {
                Err(e) => Err(e),
                Ok((r, tail)) => Ok((r, fold_infix(head, tail))),
            }
        } else {
            Ok((q, head))
        },
    }
}

/// l2 = l3 , {l2_infix} ;   (the operators fold to the left)
pub open spec fn l2(s: Seq<char>, p: int) -> Parsed
    decreases s.len() - p, 3nat,
{
    match l3(s, p) {
        Err(e) => Err(e),
        Ok((q, head)) => if p <= q <= s.len() {
            match infix_tail(s, q, 2) {
                Err(e) => Err(e),
                Ok((r, tail)) => Ok((r, fold_infix(head, tail))),
            }
        } else {
            Ok((q, head))
        },
    }
}

/// l1 = l2 , {l1_infix} ;   (the operators fold to the left)
pub open spec fn l1(s: Seq<char>, p: int) -> Parsed
    decreases s.len() - p, 4nat,
{
    match l2(s, p) {
        Err(e) => Err(e),
        Ok((q, head)) => if p <= q <= s.len() {
            match infix_tail(s, q, 1) {
                Err(e) => Err(e),
                Ok((r, tail)) => Ok((r, fold_infix(head, tail))),
            }
        } else {
            Ok((q, head))
        },
    }
}

/// math_expression = l1 ;
pub open spec fn math_expression(s: Seq<char>, p: int) -> Parsed
    decreases s.len() - p, 5nat,
{
    l1(s, p)
}

/// The body of a clause, returning its statements:
/// block = multispace0 , "{" , multispace0 , {var_statement} , return_statement , "}" , multispace0 ;
pub open spec fn block(s: Seq<char>, p: int) -> ParsedList
    decreases s.len() - p, 0nat,
{
    if !(0 <= p <= s.len()) {
        list_error(p, ErrorKind::Tag)
    } else {
        let r1 = span_end(s, p, CharClass::MultiSpace);
        if !has_tag(s, r1, one('{')) {
            list_error(r1, ErrorKind::Tag)
        } else {
            proof {
                lemma_span_end_bounds(s, p, CharClass::MultiSpace);
                lemma_span_end_bounds(s, r1 + 1, CharClass::MultiSpace);
            }
            let r2 = span_end(s, r1 + 1, CharClass::MultiSpace);
            match var_statements(s, r2) {
                Err(e) => Err(e),
                Ok((t, vs)) => if r2 <= t <= s.len() {
                    match return_statement(s, t) {
                        Err(e) => Err(e),
                        Ok((u, rs)) => if !has_tag(s, u, one('}')) {
                            list_error(u, ErrorKind::Tag)
                        } else {
                            Ok((span_end(s, u + 1, CharClass::MultiSpace), vs.push(rs)))
                        },
                    }
                } else {
                    Ok((t, vs))
                },
            }
        }
    }
}

/// An if clause, or with `else_if` an else-if clause:
/// ("if" | "else if") , space1 , boolean , block ;
pub open spec fn conditional_clause(s: Seq<char>, p: int, else_if: bool) -> Parsed
    decreases s.len() - p, 0nat,
{
    let kw = if else_if {
        kw_else_if()
    } else {
        kw_if()
    };
    if !has_tag(s, p, kw) {
        error(p, ErrorKind::Tag)
    } else {
        let p1 = p + kw.len();
        let q = span_end(s, p1, CharClass::Space);
        if q == p1 {
            error(p1, ErrorKind::Space)
        } else {
            proof {
                lemma_span_end_bounds(s, p1, CharClass::Space);
                lemma_terminal_bounds(s, q);
            }
            match boolean(s, q) {
                Err(e) => Err(e),
                Ok((r, cond)) => match block(s, r) {
                    Err(e) => Err(e),
                    Ok((t, stmts)) => if else_if {
                        Ok((t, SNode::ElseIfClause(seq![cond] + stmts)))
                    } else {
                        Ok((t, SNode::IfClause(seq![cond] + stmts)))
                    },
                },
            }
        }
    }
}

/// if_clause = "if" , space1 , boolean , block ;
pub open spec fn if_clause(s: Seq<char>, p: int) -> Parsed
    decreases s.len() - p, 1nat,
{
    conditional_clause(s, p, false)
}

/// else_if_clause = "else if" , space1 , boolean , block ;
pub open spec fn else_if_clause(s: Seq<char>, p: int) -> Parsed
    decreases s.len() - p, 1nat,
{
    conditional_clause(s, p, true)
}

/// else_clause = "else" , block ;
pub open spec fn else_clause(s: Seq<char>, p: int) -> Parsed
    decreases s.len() - p, 0nat,
{
    if !has_tag(s, p, kw_else()) {
        error(p, ErrorKind::Tag)
    } else {
        match block(s, p + 4) {
            Err(e) => Err(e),
            Ok((t, stmts)) => Ok((t, SNode::ElseClause(stmts))),
        }
    }
}

/// {else_if_clause}
pub open spec fn else_if_clauses(s: Seq<char>, p: int) -> ParsedList
    decreases s.len() - p, 2nat,
{
    match else_if_clause(s, p) {
        Err(Fail::Overflow) => Err(Fail::Overflow),
        Err(Fail::Error(..)) => Ok((p, seq![])),
        Ok((q, n)) => if q == p {
            list_error(p, ErrorKind::Many0)
        } else if p < q <= s.len() {
            match else_if_clauses(s, q) {
                Err(e) => Err(e),
                Ok((r, ns)) => Ok((r, seq![n] + ns)),
            }
        } else {
            list_error(q, ErrorKind::Many0)
        },
    }
}

/// if_expression = if_clause , {else_if_clause} , [else_clause] ;
pub open spec fn if_expression(s: Seq<char>, p: int) -> Parsed
    decreases s.len() - p, 3nat,
{
    match if_clause(s, p) {
        Err(e) => Err(e),
        Ok((q, ic)) => if p <= q <= s.len() {
            match else_if_clauses(s, q) {
                Err(e) => Err(e),
                Ok((r, eics)) => if p <= r <= s.len() {
                    match else_clause(s, r) {
                        Err(Fail::Overflow) => Err(Fail::Overflow),
                        Err(Fail::Error(..)) => Ok((r, SNode::IfExpression(seq![ic] + eics))),
                        Ok((t, ec)) => Ok((t, SNode::IfExpression((seq![ic] + eics).push(ec)))),
                    }
                } else {
                    error(r, ErrorKind::Tag)
                },
            }
        } else {
            error(q, ErrorKind::Tag)
        },
    }
}

/// expression = if_expression | boolean | math_expression | function_call
///            | number | string | identifier ;
pub open spec fn expression(s: Seq<char>, p: int) -> Parsed
    decreases s.len() - p, 6nat,
{
    let r = match if_expression(s, p) {
        Err(Fail::Error(..)) => match boolean(s, p) {
            Err(Fail::Error(..)) => match math_expression(s, p) {
                Err(Fail::Error(..)) => match function_call(s, p) {
                    Err(Fail::Error(..)) => match number(s, p) {
                        Err(Fail::Error(..)) => match string(s, p) {
                            Err(Fail::Error(..)) => identifier(s, p),
                            r => r,
                        },
                        r => r,
                    },
                    r => r,
                },
                r => r,
            },
            r => r,
        },
        r => r,
    };
    match r {
        Err(e) => Err(e),
        Ok((q, n)) => Ok((q, SNode::Expression(seq![n]))),
    }
}

/// variable_define = "let" , space1 , identifier , space0 , "=" , space0 , expression ;
pub open spec fn variable_define(s: Seq<char>, p: int) -> Parsed
    decreases s.len() - p, 0nat,
{
    if !has_tag(s, p, kw_let()) {
        error(p, ErrorKind::Tag)
    } else {
        let q = span_end(s, p + 3, CharClass::Space);
        if q == p + 3 {
            error(p + 3, ErrorKind::Space)
        } else {
            proof {
                lemma_span_end_bounds(s, p + 3, CharClass::Space);
                lemma_terminal_bounds(s, q);
            }
            match identifier(s, q) {
                Err(e) => Err(e),
                Ok((r, var)) => {
                    let r0 = span_end(s, r, CharClass::Space);
                    if !has_tag(s, r0, one('=')) {
                        error(r0, ErrorKind::Tag)
                    } else {
                        proof {
                            lemma_span_end_bounds(s, r, CharClass::Space);
                            lemma_span_end_bounds(s, r0 + 1, CharClass::Space);
                        }
                        match expression(s, span_end(s, r0 + 1, CharClass::Space)) {
                            Err(e) => Err(e),
                            Ok((t, e)) => Ok((t, SNode::VariableDefine(seq![var, e]))),
                        }
                    }
                },
            }
        }
    }
}

/// function_return = "return " , (function_call | expression | identifier) ;
pub open spec fn function_return(s: Seq<char>, p: int) -> Parsed
    decreases s.len() - p, 0nat,
{
    if !has_tag(s, p, kw_return()) {
        error(p, ErrorKind::Tag)
    } else {
        let q = p + 7;
        let r = match function_call(s, q) {
            Err(Fail::Error(..)) => match expression(s, q) {
                Err(Fail::Error(..)) => identifier(s, q),
                r => r,
            },
            r => r,
        };
        match r {
            Err(e) => Err(e),
            Ok((t, v)) => Ok((t, SNode::FunctionReturn(seq![v]))),
        }
    }
}

/// var_statement = space0 , variable_define , ";" , multispace0 ;
pub open spec fn var_statement(s: Seq<char>, p: int) -> Parsed
    decreases s.len() - p, 1nat,
{
    if !(0 <= p <= s.len()) {
        error(p, ErrorKind::Tag)
    } else {
        proof {
            lemma_span_end_bounds(s, p, CharClass::Space);
        }
        match variable_define(s, span_end(s, p, CharClass::Space)) {
            Err(e) => Err(e),
            Ok((r, vd)) => if !has_tag(s, r, one(';')) {
                error(r, ErrorKind::Tag)
            } else {
                Ok((span_end(s, r + 1, CharClass::MultiSpace), SNode::Statement(seq![vd])))
            },
        }
    }
}

/// return_statement = space0 , function_return , ";" , multispace0 ;
pub open spec fn return_statement(s: Seq<char>, p: int) -> Parsed
    decreases s.len() - p, 1nat,
{
    if !(0 <= p <= s.len()) {
        error(p, ErrorKind::Tag)
    } else {
        proof {
            lemma_span_end_bounds(s, p, CharClass::Space);
        }
        match function_return(s, span_end(s, p, CharClass::Space)) {
            Err(e) => Err(e),
            Ok((r, fr)) => if !has_tag(s, r, one(';')) {
                error(r, ErrorKind::Tag)
            } else {
                Ok((span_end(s, r + 1, CharClass::MultiSpace), SNode::Statement(seq![fr])))
            },
        }
    }
}

/// {var_statement}
pub open spec fn var_statements(s: Seq<char>, p: int) -> ParsedList
    decreases s.len() - p, 2nat,
{
    match var_statement(s, p) {
        Err(Fail::Overflow) => Err(Fail::Overflow),
        Err(Fail::Error(..)) => Ok((p, seq![])),
        Ok((q, n)) => if q == p {
            list_error(p, ErrorKind::Many0)
        } else if p < q <= s.len() {
            match var_statements(s, q) {
                Err(e) => Err(e),
                Ok((r, ns)) => Ok((r, seq![n] + ns)),
            }
        } else {
            Ok((q, seq![n]))
        },
    }
}

/// statement = (var_statement | return_statement) , multispace0 ;
pub open spec fn statement(s: Seq<char>, p: int) -> Parsed
{
    let r = match var_statement(s, p) {
        Err(Fail::Error(..)) => return_statement(s, p),
        r => r,
    };
    match r {
        Err(e) => Err(e),
        Ok((q, n)) => Ok((span_end(s, q, CharClass::MultiSpace), n)),
    }
}

/// The statements after the first: they stop at the first failure, and one
/// that consumes nothing is an error of kind `Many1`.
pub open spec fn statements_rest(s: Seq<char>, p: int) -> ParsedList
    decreases s.len() - p,
{
    match statement(s, p) {
        Err(Fail::Overflow) => Err(Fail::Overflow),
        Err(Fail::Error(..)) => Ok((p, seq![])),
        Ok((q, n)) => if q == p {
            list_error(p, ErrorKind::Many1)
        } else if p < q <= s.len() {
            match statements_rest(s, q) {
                Err(e) => Err(e),
                Ok((r, ns)) => Ok((r, seq![n] + ns)),
            }
        } else {
            Ok((q, seq![n]))
        },
    }
}

/// statement , {statement}
pub open spec fn statements1(s: Seq<char>, p: int) -> ParsedList
{
    match statement(s, p) {
        Err(e) => Err(e),
        Ok((q, n)) => if p <= q <= s.len() {
            match statements_rest(s, q) {
                Err(e) => Err(e),
                Ok((r, ns)) => Ok((r, seq![n] + ns)),
            }
        } else {
            Ok((q, seq![n]))
        },
    }
}

/// function_definition = "fn " , identifier , "(" , {arguments} , ")" , space0 ,
///                       "{" , multispace0 , statement , {statement} , "}" , multispace0 ;
pub open spec fn function_definition(s: Seq<char>, p: int) -> Parsed
{
    if !has_tag(s, p, kw_fn()) {
        error(p, ErrorKind::Tag)
    } else {
        match identifier(s, p + 3) {
            Err(e) => Err(e),
            Ok((q, name)) => if !has_tag(s, q, one('(')) {
                error(q, ErrorKind::Tag)
            } else {
                match arguments_list(s, q + 1) {
                    Err(e) => Err(e),
                    Ok((r, args)) => if !has_tag(s, r, one(')')) || r < q + 1 {
                        error(r, ErrorKind::Tag)
                    } else {
                        let r0 = span_end(s, r + 1, CharClass::Space);
                        if !has_tag(s, r0, one('{')) {
                            error(r0, ErrorKind::Tag)
                        } else {
                            match statements1(s, span_end(s, r0 + 1, CharClass::MultiSpace)) {
                                Err(e) => Err(e),
                                Ok((t, stmts)) => if !has_tag(s, t, one('}')) {
                                    error(t, ErrorKind::Tag)
                                } else {
                                    Ok(
                                        (
                                            span_end(s, t + 1, CharClass::MultiSpace),
                                            SNode::FunctionDefine(seq![name] + args + stmts),
                                        ),
                                    )
                                },
                            }
                        }
                    },
                }
            },
        }
    }
}

/// function_definition | statement | expression
pub open spec fn program_item(s: Seq<char>, p: int) -> Parsed
{
    match function_definition(s, p) {
        Err(Fail::Error(..)) => match statement(s, p) {
            Err(Fail::Error(..)) => expression(s, p),
            r => r,
        },
        r => r,
    }
}

/// The program items after the first.
pub open spec fn program_items_rest(s: Seq<char>, p: int) -> ParsedList
    decreases s.len() - p,
{
    match program_item(s, p) {
        Err(Fail::Overflow) => Err(Fail::Overflow),
        Err(Fail::Error(..)) => Ok((p, seq![])),
        Ok((q, n)) => if q == p {
            list_error(p, ErrorKind::Many1)
        } else if p < q <= s.len() {
            match program_items_rest(s, q) {
                Err(e) => Err(e),
                Ok((r, ns)) => Ok((r, seq![n] + ns)),
            }
        } else {
            Ok((q, seq![n]))
        },
    }
}

/// program = (function_definition | statement | expression) ,
///           {function_definition | statement | expression} ;
pub open spec fn program(s: Seq<char>, p: int) -> Parsed
{
    match program_item(s, p) {
        Err(e) => Err(e),
        Ok((q, n)) => if p <= q <= s.len() {
            match program_items_rest(s, q) {
                Err(e) => Err(e),
                Ok((r, ns)) => Ok((r, SNode::Program(seq![n] + ns))),
            }
        } else {
            Ok((q, SNode::Program(seq![n])))
        },
    }
}

} // verus!
