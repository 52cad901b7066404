//! Properties of the grammar stated without its rules' own wording: what a
//! name is, what the operand of a power is, and that a run of else-if
//! clauses takes every clause there is.
use crate::grammar::{
    else_clause, else_if_clause, else_if_clauses, identifier, if_clause, if_expression, in_class, infix, l2, l4, span_end, CharClass,
    ErrorKind, Fail,
};
use crate::node::SNode;
use vstd::prelude::*;

verus! {

/// The characters of a name are the ASCII letters, of either case, and the
/// decimal digits.
pub proof fn lemma_name_characters(c: char)
    ensures
        in_class(c, CharClass::AlphaNumeric) <==> (('a' <= c && c <= 'z') || ('A' <= c && c
            <= 'Z') || ('0' <= c && c <= '9')),
{
}

/// An identifier starts at a letter of either case and takes the whole run
/// of letters and digits that follows: it succeeds exactly where the first
/// character is an ASCII letter, its name is the text it consumed, every
/// consumed character is a letter or a digit, and the next character is not.
pub proof fn lemma_identifier_is_a_letter_run(s: Seq<char>, p: int)
    requires
        0 <= p <= s.len(),
    ensures
        identifier(s, p) is Ok <==> (p < s.len() && (('a' <= s[p] && s[p] <= 'z') || ('A' <= s[p]
            && s[p] <= 'Z'))),
        identifier(s, p) matches Err(e) ==> e == Fail::Error(p, ErrorKind::AlphaNumeric),
        identifier(s, p) matches Ok((q, n)) ==> {
            &&& p < q <= s.len()
            &&& n == SNode::Identifier(s.subrange(p, q))
            &&& forall|i: int|
                p <= i < q ==> (('a' <= #[trigger] s[i] && s[i] <= 'z') || ('A' <= s[i] && s[i]
                    <= 'Z') || ('0' <= s[i] && s[i] <= '9'))
            &&& q < s.len() ==> !(('a' <= s[q] && s[q] <= 'z') || ('A' <= s[q] && s[q] <= 'Z')
                || ('0' <= s[q] && s[q] <= '9'))
        },
{
    crate::grammar::lemma_span_end_bounds(s, p, CharClass::AlphaNumeric);
    if identifier(s, p) is Ok {
        let q = span_end(s, p, CharClass::AlphaNumeric);
        assert forall|i: int| p <= i < q implies (('a' <= #[trigger] s[i] && s[i] <= 'z') || ('A'
            <= s[i] && s[i] <= 'Z') || ('0' <= s[i] && s[i] <= '9')) by {
            assert(in_class(s[i], CharClass::AlphaNumeric));
        }
        if p < s.len() {
            assert(in_class(s[p], CharClass::AlphaNumeric));
        }
    }
}

/// The right operand of `^` is one atom (an `l4`): a power binds tighter than
/// `*`, `/`, `+` and `-`. After the spaces, the `^` and the spaces after it,
/// the operand is exactly what `l4` parses there, and the infix ends where
/// that atom ends. The other operators take an `l2` as their right operand.
pub proof fn lemma_infix_operand(s: Seq<char>, p: int, level: nat)
    ensures
        infix(s, p, level) matches Ok((t, n)) ==> {
            let q = span_end(s, p, CharClass::Space);
            let r = span_end(s, q + 1, CharClass::Space);
            let operand = if level == 3 {
                l4(s, r)
            } else {
                l2(s, r)
            };
            &&& 0 <= q < s.len()
            &&& level == 3 ==> s[q] == '^'
            &&& level == 2 ==> s[q] == '*' || s[q] == '/'
            &&& level != 3 && level != 2 ==> s[q] == '+' || s[q] == '-'
            &&& operand matches Ok((t2, a)) && t2 == t && n == SNode::MathExpression(
                seq![s[q]],
                seq![a],
            )
        },
{
    if infix(s, p, level) is Ok {
        crate::grammar::lemma_span_end_bounds(s, p, CharClass::Space);
        let q = span_end(s, p, CharClass::Space);
        assert(q < s.len());
        assert(s.subrange(q, q + 1)[0] == s[q]);
    }
}

/// A run of else-if clauses takes every clause there is: where it succeeds,
/// no further else-if clause parses at the position where it stopped.
pub proof fn lemma_else_if_clauses_take_all(s: Seq<char>, p: int)
    ensures
        else_if_clauses(s, p) matches Ok((q, _)) ==> else_if_clause(s, q) matches Err(
            Fail::Error(..),
        ),
    decreases s.len() - p,
{
    if let Ok((q, n)) = else_if_clause(s, p) {
        if p < q <= s.len() {
            lemma_else_if_clauses_take_all(s, q);
        }
    }
}

/// The clauses that a run of else-if clauses returns are the ones it parsed
/// one after another: the first is the else-if clause at `p`, and the rest
/// are the run that starts where that clause ends; with no else-if clause at
/// `p`, the run is empty and ends at `p`.
pub proof fn lemma_else_if_clauses_in_order(s: Seq<char>, p: int)
    ensures
        else_if_clauses(s, p) matches Ok((q, ns)) ==> {
            &&& ns.len() == 0 ==> q == p && else_if_clause(s, p) is Err
            &&& ns.len() > 0 ==> (else_if_clause(s, p) matches Ok((p1, n1)) && n1 == ns[0]
                && p < p1 && else_if_clauses(s, p1) == Ok::<(int, Seq<SNode>), Fail>(
                (q, ns.drop_first()),
            ))
        },
{
    if let Ok((p1, n1)) = else_if_clause(s, p) {
        if p < p1 <= s.len() {
            if let Ok((r, ns)) = else_if_clauses(s, p1) {
                assert((seq![n1] + ns).drop_first() =~= ns);
            }
        }
    }
}


/// Every clause of a run of else-if clauses is an else-if clause.
pub proof fn lemma_else_if_clauses_kinds(s: Seq<char>, p: int)
    ensures
        else_if_clauses(s, p) matches Ok((q, ns)) ==> forall|i: int|
            0 <= i < ns.len() ==> #[trigger] ns[i] is ElseIfClause,
    decreases s.len() - p,
{
    if let Ok((p1, n1)) = else_if_clause(s, p) {
        if p < p1 <= s.len() {
            lemma_else_if_clauses_kinds(s, p1);
            if let Ok((r, ns)) = else_if_clauses(s, p1) {
                let all = seq![n1] + ns;
                assert forall|i: int| 0 <= i < all.len() implies #[trigger] all[i] is ElseIfClause by {
                    if i > 0 {
                        assert(all[i] == ns[i - 1]);
                    }
                }
            }
        }
    }
}

/// An if-expression is an if clause, then every else-if clause that follows,
/// then an else clause where one follows: its first clause is an if clause,
/// the ones after are else-if clauses, except that the last may be an else
/// clause; and where it has no else clause, neither an else-if clause nor an
/// else clause parses where it ends.
pub proof fn lemma_if_expression_shape(s: Seq<char>, p: int)
    ensures
        if_expression(s, p) matches Ok((t, n)) ==> {
            &&& n matches SNode::IfExpression(cs)
            &&& cs.len() >= 1
            &&& cs[0] is IfClause
            &&& forall|i: int| 1 <= i < cs.len() - 1 ==> #[trigger] cs[i] is ElseIfClause
            &&& cs.len() >= 2 ==> (cs[cs.len() - 1] is ElseIfClause || cs[cs.len() - 1] is ElseClause)
            &&& !(cs[cs.len() - 1] is ElseClause) ==> (else_if_clause(s, t) matches Err(
                Fail::Error(..),
            ))
            &&& !(cs[cs.len() - 1] is ElseClause) ==> (else_clause(s, t) matches Err(
                Fail::Error(..),
            ))
        },
{
    if let Ok((q, ic)) = if_clause(s, p) {
        if p <= q <= s.len() {
            lemma_else_if_clauses_kinds(s, q);
            lemma_else_if_clauses_take_all(s, q);
            if let Ok((r, eics)) = else_if_clauses(s, q) {
                let front = seq![ic] + eics;
                assert(front[0] == ic);
                assert forall|i: int| 1 <= i < front.len() implies #[trigger] front[i] is ElseIfClause by {
                    assert(front[i] == eics[i - 1]);
                }
                if let Ok((t, ec)) = else_clause(s, r) {
                    let all = front.push(ec);
                    assert(all[all.len() - 1] == ec);
                    assert forall|i: int| 1 <= i < all.len() - 1 implies #[trigger] all[i] is ElseIfClause by {
                        assert(all[i] == front[i]);
                    }
                    assert(all[0] == ic);
                }
            }
        }
    }
}

} // verus!
