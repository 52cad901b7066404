//! Properties of the evaluator that hold across calls and states.
use crate::node::SNode;
use crate::semantics::{
    bind_args, call_args, clause_parts, clause_types, consistent, eval, eval_block,
    eval_call, eval_conditional, eval_define, eval_if, eval_math, eval_program, evaluation,
    interpret, main_call, main_name, pop_frame, program_outcome, push_frame, select_clause,
    set_variable, define_function, arith, power, Binding, ClauseTypes, Outcome, RState, RuntimeError,
    SValue,
};
use vstd::prelude::*;

verus! {

/// More fuel does not change an evaluation that ends: the state and outcome
/// are the same for every fuel with which evaluation ends.
pub proof fn lemma_eval_fuel(st: RState, n: SNode, f1: nat, f2: nat)
    requires
        f1 <= f2,
        !(eval(st, n, f1).1 is OutOfFuel),
    ensures
        eval(st, n, f2) == eval(st, n, f1),
    decreases f1, 3nat, 0int,
{
    let g1 = (f1 - 1) as nat;
    let g2 = (f2 - 1) as nat;
    match n {
        SNode::Program(items) => lemma_program_fuel(st, items, 0, f1, f2),
        SNode::MathExpression(name, c) => lemma_math_fuel(st, name, c, f1, f2),
        SNode::FunctionCall(name, c) => lemma_call_fuel(st, name, c, f1, f2),
        SNode::FunctionReturn(c) => if c.len() > 0 {
            lemma_eval_fuel(st, c[0], g1, g2);
        },
        SNode::Statement(c) => if c.len() > 0 && (c[0] is VariableDefine || c[0] is FunctionReturn) {
            lemma_eval_fuel(st, c[0], g1, g2);
        },
        SNode::VariableDefine(c) => lemma_define_fuel(st, c, f1, f2),
        SNode::Expression(c) => if c.len() > 0 && (c[0] is MathExpression || c[0] is Number
            || c[0] is FunctionCall || c[0] is String || c[0] is Bool || c[0] is Identifier
            || c[0] is IfExpression) {
            lemma_eval_fuel(st, c[0], g1, g2);
        },
        SNode::IfExpression(c) => lemma_if_fuel(st, c, f1, f2),
        SNode::IfClause(c) => lemma_conditional_fuel(st, c, f1, f2),
        SNode::ElseIfClause(c) => lemma_conditional_fuel(st, c, f1, f2),
        SNode::ElseClause(c) => lemma_block_fuel(st, c, 0, Err(RuntimeError::NoResultFound), f1, f2),
        _ => {},
    }
}

proof fn lemma_block_fuel(
    st: RState,
    stmts: Seq<SNode>,
    i: int,
    last: Result<SValue, RuntimeError>,
    f1: nat,
    f2: nat,
)
    requires
        f1 <= f2,
        !(eval_block(st, stmts, i, last, f1).1 is OutOfFuel),
    ensures
        eval_block(st, stmts, i, last, f2) == eval_block(st, stmts, i, last, f1),
    decreases f1, 0nat, stmts.len() - i,
{
    if 0 <= i < stmts.len() {
        lemma_eval_fuel(st, stmts[i], (f1 - 1) as nat, (f2 - 1) as nat);
        let (st1, o) = eval(st, stmts[i], (f1 - 1) as nat);
        if let Outcome::Done(r) = o {
            lemma_block_fuel(st1, stmts, i + 1, r, f1, f2);
        }
    }
}

proof fn lemma_program_fuel(st: RState, items: Seq<SNode>, i: int, f1: nat, f2: nat)
    requires
        f1 <= f2,
        !(eval_program(st, items, i, f1).1 is OutOfFuel),
    ensures
        eval_program(st, items, i, f2) == eval_program(st, items, i, f1),
    decreases f1, 0nat, items.len() - i,
{
    if 0 <= i < items.len() {
        match items[i] {
            SNode::FunctionDefine(..) => {
                lemma_eval_fuel(st, items[i], (f1 - 1) as nat, (f2 - 1) as nat);
                let (st1, o) = eval(st, items[i], (f1 - 1) as nat);
                if o matches Outcome::Done(Ok(_)) {
                    lemma_program_fuel(st1, items, i + 1, f1, f2);
                }
            },
            SNode::Expression(..) => lemma_program_fuel(
                define_function(st, main_name(), seq![SNode::FunctionReturn(seq![items[i]])]),
                items,
                i + 1,
                f1,
                f2,
            ),
            SNode::Statement(..) => lemma_program_fuel(
                define_function(st, main_name(), seq![items[i]]),
                items,
                i + 1,
                f1,
                f2,
            ),
            _ => lemma_program_fuel(st, items, i + 1, f1, f2),
        }
    }
}

proof fn lemma_math_fuel(st: RState, name: Seq<char>, c: Seq<SNode>, f1: nat, f2: nat)
    requires
        f1 <= f2,
        !(eval_math(st, name, c, f1).1 is OutOfFuel),
    ensures
        eval_math(st, name, c, f2) == eval_math(st, name, c, f1),
    decreases f1, 2nat, 0int,
{
    let g1 = (f1 - 1) as nat;
    let g2 = (f2 - 1) as nat;
    if c.len() > 0 {
        lemma_eval_fuel(st, c[0], g1, g2);
        let (st1, o0) = eval(st, c[0], g1);
        if o0 is Done && c.len() >= 2 {
            lemma_eval_fuel(st1, c[1], g1, g2);
        }
    }
}

proof fn lemma_define_fuel(st: RState, c: Seq<SNode>, f1: nat, f2: nat)
    requires
        f1 <= f2,
        !(eval_define(st, c, f1).1 is OutOfFuel),
    ensures
        eval_define(st, c, f2) == eval_define(st, c, f1),
    decreases f1, 2nat, 0int,
{
    if c.len() >= 2 {
        lemma_eval_fuel(st, c[1], (f1 - 1) as nat, (f2 - 1) as nat);
    }
}

proof fn lemma_conditional_fuel(st: RState, c: Seq<SNode>, f1: nat, f2: nat)
    requires
        f1 <= f2,
        !(eval_conditional(st, c, f1).1 is OutOfFuel),
    ensures
        eval_conditional(st, c, f2) == eval_conditional(st, c, f1),
    decreases f1, 2nat, 0int,
{
    if c.len() > 0 {
        lemma_eval_fuel(st, c[0], (f1 - 1) as nat, (f2 - 1) as nat);
        let (st1, o) = eval(st, c[0], (f1 - 1) as nat);
        if o matches Outcome::Done(Ok(SValue::Bool(true))) {
            lemma_block_fuel(st1, c, 1, Err(RuntimeError::NoResultFound), f1, f2);
        }
    }
}

proof fn lemma_bind_fuel(
    st: RState,
    params: Seq<SNode>,
    args: Seq<SNode>,
    i: int,
    frame: Map<Seq<char>, SValue>,
    f1: nat,
    f2: nat,
)
    requires
        f1 <= f2,
        !(bind_args(st, params, args, i, frame, f1).1 matches Binding::Stop(Outcome::OutOfFuel)),
    ensures
        bind_args(st, params, args, i, frame, f2) == bind_args(st, params, args, i, frame, f1),
    decreases f1, 0nat, params.len() - i,
{
    if 0 <= i < params.len() && i < args.len() {
        lemma_eval_fuel(st, args[i], (f1 - 1) as nat, (f2 - 1) as nat);
        let (st1, o) = eval(st, args[i], (f1 - 1) as nat);
        if let Outcome::Done(Ok(v)) = o {
            match params[i] {
                SNode::Expression(pc) => if pc.len() > 0 {
                    match pc[0] {
                        SNode::Identifier(x) => lemma_bind_fuel(
                            st1,
                            params,
                            args,
                            i + 1,
                            frame.insert(x, v),
                            f1,
                            f2,
                        ),
                        _ => lemma_bind_fuel(st1, params, args, i + 1, frame, f1, f2),
                    }
                },
                _ => lemma_bind_fuel(st1, params, args, i + 1, frame, f1, f2),
            }
        }
    }
}

proof fn lemma_call_fuel(st: RState, name: Seq<char>, c: Seq<SNode>, f1: nat, f2: nat)
    requires
        f1 <= f2,
        !(eval_call(st, name, c, f1).1 is OutOfFuel),
    ensures
        eval_call(st, name, c, f2) == eval_call(st, name, c, f1),
    decreases f1, 2nat, 0int,
{
    if st.functions.contains_key(name) {
        let body = st.functions[name];
        if body.len() > 0 {
            let (st1, b) = match body[0] {
                SNode::FunctionArguments(params) => {
                    lemma_bind_fuel(st, params, call_args(c), 0, Map::empty(), f1, f2);
                    bind_args(st, params, call_args(c), 0, Map::empty(), f1)
                },
                _ => (st, Binding::Frame(Map::empty())),
            };
            if let Binding::Frame(frame) = b {
                lemma_block_fuel(
                    push_frame(st1, frame),
                    body,
                    0,
                    Err(RuntimeError::UndefinedFunction),
                    f1,
                    f2,
                );
            }
        }
    }
}

proof fn lemma_types_fuel(st: RState, c: Seq<SNode>, i: int, vals: Seq<SValue>, f1: nat, f2: nat)
    requires
        f1 <= f2,
        !(clause_types(st, c, i, vals, f1).1 matches ClauseTypes::Stop(Outcome::OutOfFuel)),
    ensures
        clause_types(st, c, i, vals, f2) == clause_types(st, c, i, vals, f1),
    decreases f1, 1nat, c.len() - i,
{
    if 0 <= i < c.len() {
        if let Some((cc, start)) = clause_parts(c[i]) {
            if cc.len() > 0 {
                lemma_eval_fuel(st, cc.last(), (f1 - 1) as nat, (f2 - 1) as nat);
                let (st1, o) = eval(st, cc.last(), (f1 - 1) as nat);
                match o {
                    Outcome::Done(Ok(v)) => lemma_types_fuel(st1, c, i + 1, vals.push(v), f1, f2),
                    Outcome::Done(Err(_)) => {
                        lemma_block_fuel(
                            push_frame(st1, Map::empty()),
                            cc,
                            start,
                            Err(RuntimeError::NoResultFound),
                            f1,
                            f2,
                        );
                        let (st2, o2) = eval_block(
                            push_frame(st1, Map::empty()),
                            cc,
                            start,
                            Err(RuntimeError::NoResultFound),
                            f1,
                        );
                        if let Outcome::Done(Ok(v)) = o2 {
                            lemma_types_fuel(pop_frame(st2), c, i + 1, vals.push(v), f1, f2);
                        }
                    },
                    _ => {},
                }
            }
        }
    }
}

proof fn lemma_select_fuel(st: RState, c: Seq<SNode>, i: int, f1: nat, f2: nat)
    requires
        f1 <= f2,
        !(select_clause(st, c, i, f1).1 is OutOfFuel),
    ensures
        select_clause(st, c, i, f2) == select_clause(st, c, i, f1),
    decreases f1, 1nat, c.len() - i,
{
    if 0 <= i < c.len() {
        lemma_eval_fuel(st, c[i], (f1 - 1) as nat, (f2 - 1) as nat);
        let (st1, o) = eval(st, c[i], (f1 - 1) as nat);
        if o matches Outcome::Done(Err(RuntimeError::ConditionNotMet)) {
            lemma_select_fuel(st1, c, i + 1, f1, f2);
        }
    }
}

proof fn lemma_if_fuel(st: RState, c: Seq<SNode>, f1: nat, f2: nat)
    requires
        f1 <= f2,
        !(eval_if(st, c, f1).1 is OutOfFuel),
    ensures
        eval_if(st, c, f2) == eval_if(st, c, f1),
    decreases f1, 2nat, 0int,
{
    lemma_types_fuel(st, c, 0, seq![], f1, f2);
    let (st1, t) = clause_types(st, c, 0, seq![], f1);
    if let ClauseTypes::Values(vals) = t {
        if vals.len() > 0 && c.len() > 0 && consistent(vals) {
            lemma_eval_fuel(st1, c[0], (f1 - 1) as nat, (f2 - 1) as nat);
            let (st2, o) = eval(st1, c[0], (f1 - 1) as nat);
            if o matches Outcome::Done(Err(RuntimeError::ConditionNotMet)) {
                lemma_select_fuel(st2, c, 1, f1, f2);
            }
        }
    }
}

/// An evaluation that ends gives the same state and outcome as
/// `evaluation`, whatever fuel it was given.
pub proof fn lemma_evaluation_unique(st: RState, n: SNode, fuel: nat)
    requires
        !(eval(st, n, fuel).1 is OutOfFuel),
    ensures
        eval(st, n, fuel) == evaluation(st, n),
{
    let c = choose|f: nat| !(#[trigger] eval(st, n, f).1 is OutOfFuel);
    assert(!(eval(st, n, c).1 is OutOfFuel));
    if fuel <= c {
        lemma_eval_fuel(st, n, fuel, c);
    } else {
        lemma_eval_fuel(st, n, c, fuel);
    }
}

/// More fuel does not change a run of a program that ends.
pub proof fn lemma_interpret_fuel(n: SNode, f1: nat, f2: nat)
    requires
        f1 <= f2,
        !(interpret(n, f1) is OutOfFuel),
    ensures
        interpret(n, f2) == interpret(n, f1),
{
    let st0 = crate::semantics::empty_state();
    lemma_eval_fuel(st0, n, f1, f2);
    let (st1, o1) = eval(st0, n, f1);
    if o1 is Done {
        lemma_eval_fuel(st1, main_call(), f1, f2);
    }
}

/// A run of a program that ends gives the outcome `program_outcome`,
/// whatever fuel it was given.
pub proof fn lemma_program_outcome_unique(n: SNode, fuel: nat)
    requires
        !(interpret(n, fuel) is OutOfFuel),
    ensures
        interpret(n, fuel) == program_outcome(n),
{
    let c = choose|f: nat| !(#[trigger] interpret(n, f) is OutOfFuel);
    assert(!(interpret(n, c) is OutOfFuel));
    if fuel <= c {
        lemma_interpret_fuel(n, fuel, c);
    } else {
        lemma_interpret_fuel(n, c, fuel);
    }
}

/// A variable reads back the value that its definition gave it: after
/// `let x = e;` evaluates to `v`, evaluating `x` gives `v` and changes nothing.
pub proof fn lemma_read_after_define(st: RState, x: Seq<char>, e: SNode, v: SValue, f1: nat, f2: nat)
    requires
        eval(st, SNode::VariableDefine(seq![SNode::Identifier(x), e]), f1).1 == Outcome::Done(
            Ok(v),
        ),
        f2 > 0,
    ensures
        ({
            let st1 = eval(st, SNode::VariableDefine(seq![SNode::Identifier(x), e]), f1).0;
            eval(st1, SNode::Identifier(x), f2) == (st1, Outcome::Done(Ok(v)))
        }),
{
    let st1 = eval(st, SNode::VariableDefine(seq![SNode::Identifier(x), e]), f1).0;
    let c = seq![SNode::Identifier(x), e];
    assert(c[0] == SNode::Identifier(x));
    assert(c[1] == e);
    assert(f1 > 0);
    assert(eval(st, SNode::VariableDefine(c), f1) == eval_define(st, c, f1));
    let (st0, o) = eval(st, e, (f1 - 1) as nat);
    assert(o == Outcome::Done(Ok(v)));
    assert(st0.stack.len() > 0);
    assert(st1 == set_variable(st0, x, v));
    assert(st1.stack.last() == st0.stack.last().insert(x, v));
}

/// A defined function can be called: after `fn f(..) {..}` is evaluated,
/// `f` is bound to the rest of the definition, and nothing else changes.
pub proof fn lemma_define_binds_function(st: RState, f: Seq<char>, rest: Seq<SNode>, fuel: nat)
    requires
        fuel > 0,
    ensures
        eval(st, SNode::FunctionDefine(seq![SNode::Identifier(f)] + rest), fuel) == (
            define_function(st, f, rest),
            Outcome::Done(Ok(SValue::Bool(true))),
        ),
        define_function(st, f, rest).functions[f] == rest,
        define_function(st, f, rest).stack == st.stack,
{
    let c = seq![SNode::Identifier(f)] + rest;
    assert(c[0] == SNode::Identifier(f));
    assert(c.skip(1) =~= rest);
}

/// The name of a parameter: an expression whose first child is an
/// identifier.
pub open spec fn parameter_name(n: SNode) -> Option<Seq<char>> {
    match n {
        SNode::Expression(pc) => if pc.len() > 0 {
            match pc[0] {
                SNode::Identifier(k) => Some(k),
                _ => None,
            }
        } else {
            None
        },
        _ => None,
    }
}

/// `k` names a parameter in `params[i..]`.
pub open spec fn names_parameter(params: Seq<SNode>, i: int, k: Seq<char>) -> bool {
    exists|j: int| i <= j < params.len() && parameter_name(#[trigger] params[j]) == Some(k)
}

/// A call's frame holds only the function's parameters: binding the
/// arguments adds no name that is not a parameter, so the body of a function
/// does not see the variables of its caller.
pub proof fn lemma_frame_holds_parameters(
    st: RState,
    params: Seq<SNode>,
    args: Seq<SNode>,
    i: int,
    frame: Map<Seq<char>, SValue>,
    fuel: nat,
)
    requires
        0 <= i,
        bind_args(st, params, args, i, frame, fuel).1 is Frame,
    ensures
        forall|k: Seq<char>|
            #[trigger] bind_args(st, params, args, i, frame, fuel).1->Frame_0.contains_key(k)
                ==> frame.contains_key(k) || names_parameter(params, i, k),
    decreases fuel, params.len() - i,
{
    if fuel > 0 && i < params.len() && i < args.len() {
        let (st1, o) = eval(st, args[i], (fuel - 1) as nat);
        if let Outcome::Done(Ok(v)) = o {
            match params[i] {
                SNode::Expression(pc) => if pc.len() > 0 {
                    match pc[0] {
                        SNode::Identifier(x) => {
                            lemma_frame_holds_parameters(
                                st1,
                                params,
                                args,
                                i + 1,
                                frame.insert(x, v),
                                fuel,
                            );
                            assert forall|k: Seq<char>|
                                #[trigger] bind_args(
                                    st,
                                    params,
                                    args,
                                    i,
                                    frame,
                                    fuel,
                                ).1->Frame_0.contains_key(k) implies frame.contains_key(k)
                                || names_parameter(params, i, k) by {
                                if k == x {
                                    assert(parameter_name(params[i]) == Some(k));
                                } else if names_parameter(params, i + 1, k) {
                                    let j = choose|j: int|
                                        i + 1 <= j < params.len() && parameter_name(#[trigger] params[j]) == Some(k);
                                    assert(i <= j);
                                }
                            }
                        },
                        _ => {
                            lemma_frame_holds_parameters(st1, params, args, i + 1, frame, fuel);
                            assert forall|k: Seq<char>| names_parameter(params, i + 1, k) implies names_parameter(params, i, k) by {
                                let j = choose|j: int|
                                        i + 1 <= j < params.len() && parameter_name(#[trigger] params[j]) == Some(k);
                                assert(i <= j);
                            }
                        },
                    }
                },
                _ => {
                    lemma_frame_holds_parameters(st1, params, args, i + 1, frame, fuel);
                    assert forall|k: Seq<char>| names_parameter(params, i + 1, k) implies names_parameter(params, i, k) by {
                        let j = choose|j: int|
                                        i + 1 <= j < params.len() && parameter_name(#[trigger] params[j]) == Some(k);
                        assert(i <= j);
                    }
                },
            }
        }
    }
}

/// `st2` keeps what `st` had: the stack is no shorter, every frame below the
/// top of `st` is unchanged, and every defined function is still defined.
pub open spec fn keeps(st: RState, st2: RState) -> bool {
    &&& st.stack.len() <= st2.stack.len()
    &&& forall|i: int| 0 <= i < st.stack.len() - 1 ==> #[trigger] st2.stack[i] == st.stack[i]
    &&& forall|k: Seq<char>| #[trigger] st.functions.contains_key(k) ==> st2.functions.contains_key(k)
}

proof fn lemma_keeps_trans(a: RState, b: RState, c: RState)
    requires
        keeps(a, b),
        keeps(b, c),
    ensures
        keeps(a, c),
{
    assert forall|i: int| 0 <= i < a.stack.len() - 1 implies #[trigger] c.stack[i] == a.stack[i] by {
        assert(b.stack[i] == a.stack[i]);
    }
}

/// What a frame pushed on `st1` and later popped leaves.
proof fn lemma_keeps_frame(st1: RState, frame: Map<Seq<char>, SValue>, st2: RState)
    requires
        keeps(push_frame(st1, frame), st2),
    ensures
        keeps(st1, st2),
        keeps(st1, pop_frame(st2)),
{
    let sp = push_frame(st1, frame);
    assert(sp.functions == st1.functions);
    assert(sp.stack.len() == st1.stack.len() + 1);
    assert forall|k: Seq<char>| #[trigger] st1.functions.contains_key(k) implies st2.functions.contains_key(k) by {
        assert(sp.functions.contains_key(k));
    }
    assert forall|i: int| 0 <= i < st1.stack.len() - 1 implies #[trigger] st2.stack[i] == st1.stack[i] by {
        assert(sp.stack[i] == st1.stack[i]);
    }
    assert forall|i: int| 0 <= i < st1.stack.len() - 1 implies #[trigger] pop_frame(st2).stack[i]
        == st1.stack[i] by {
        assert(sp.stack[i] == st1.stack[i]);
        assert(st2.stack[i] == sp.stack[i]);
    }
    assert(pop_frame(st2).functions == st2.functions);
}

/// Evaluation keeps the state: it never shortens the stack, never changes a
/// frame below the current one (a callee cannot change its callers'
/// variables), and never removes a function.
pub proof fn lemma_eval_keeps(st: RState, n: SNode, fuel: nat)
    ensures
        keeps(st, eval(st, n, fuel).0),
    decreases fuel, 3nat, 0int,
{
    if fuel > 0 {
        let g = (fuel - 1) as nat;
        match n {
            SNode::Program(items) => lemma_program_keeps(st, items, 0, fuel),
            SNode::MathExpression(name, c) => lemma_math_keeps(st, name, c, fuel),
            SNode::FunctionCall(name, c) => lemma_call_keeps(st, name, c, fuel),
            SNode::FunctionReturn(c) => if c.len() > 0 {
                lemma_eval_keeps(st, c[0], g);
            },
            SNode::Statement(c) => if c.len() > 0 {
                lemma_eval_keeps(st, c[0], g);
            },
            SNode::VariableDefine(c) => lemma_define_keeps(st, c, fuel),
            SNode::Expression(c) => if c.len() > 0 {
                lemma_eval_keeps(st, c[0], g);
            },
            SNode::IfExpression(c) => lemma_if_keeps(st, c, fuel),
            SNode::IfClause(c) => lemma_conditional_keeps(st, c, fuel),
            SNode::ElseIfClause(c) => lemma_conditional_keeps(st, c, fuel),
            SNode::ElseClause(c) => lemma_block_keeps(st, c, 0, Err(RuntimeError::NoResultFound), fuel),
            _ => {},
        }
    }
}

proof fn lemma_block_keeps(
    st: RState,
    stmts: Seq<SNode>,
    i: int,
    last: Result<SValue, RuntimeError>,
    fuel: nat,
)
    ensures
        keeps(st, eval_block(st, stmts, i, last, fuel).0),
    decreases fuel, 0nat, stmts.len() - i,
{
    if fuel > 0 && 0 <= i < stmts.len() {
        lemma_eval_keeps(st, stmts[i], (fuel - 1) as nat);
        let (st1, o) = eval(st, stmts[i], (fuel - 1) as nat);
        if let Outcome::Done(r) = o {
            lemma_block_keeps(st1, stmts, i + 1, r, fuel);
            lemma_keeps_trans(st, st1, eval_block(st1, stmts, i + 1, r, fuel).0);
        }
    }
}

proof fn lemma_program_keeps(st: RState, items: Seq<SNode>, i: int, fuel: nat)
    ensures
        keeps(st, eval_program(st, items, i, fuel).0),
    decreases fuel, 0nat, items.len() - i,
{
    if fuel > 0 && 0 <= i < items.len() {
        match items[i] {
            SNode::FunctionDefine(..) => {
                lemma_eval_keeps(st, items[i], (fuel - 1) as nat);
                let (st1, o) = eval(st, items[i], (fuel - 1) as nat);
                if o matches Outcome::Done(Ok(_)) {
                    lemma_program_keeps(st1, items, i + 1, fuel);
                    lemma_keeps_trans(st, st1, eval_program(st1, items, i + 1, fuel).0);
                }
            },
            SNode::Expression(..) => {
                let st1 = define_function(
                    st,
                    main_name(),
                    seq![SNode::FunctionReturn(seq![items[i]])],
                );
                lemma_program_keeps(st1, items, i + 1, fuel);
                lemma_keeps_trans(st, st1, eval_program(st1, items, i + 1, fuel).0);
            },
            SNode::Statement(..) => {
                let st1 = define_function(st, main_name(), seq![items[i]]);
                lemma_program_keeps(st1, items, i + 1, fuel);
                lemma_keeps_trans(st, st1, eval_program(st1, items, i + 1, fuel).0);
            },
            _ => lemma_program_keeps(st, items, i + 1, fuel),
        }
    }
}

proof fn lemma_math_keeps(st: RState, name: Seq<char>, c: Seq<SNode>, fuel: nat)
    ensures
        keeps(st, eval_math(st, name, c, fuel).0),
    decreases fuel, 2nat, 0int,
{
    let g = (fuel - 1) as nat;
    if fuel > 0 && c.len() > 0 {
        lemma_eval_keeps(st, c[0], g);
        let (st1, o0) = eval(st, c[0], g);
        if o0 is Done && c.len() >= 2 {
            lemma_eval_keeps(st1, c[1], g);
            lemma_keeps_trans(st, st1, eval(st1, c[1], g).0);
        }
    }
}

proof fn lemma_define_keeps(st: RState, c: Seq<SNode>, fuel: nat)
    ensures
        keeps(st, eval_define(st, c, fuel).0),
    decreases fuel, 2nat, 0int,
{
    if fuel > 0 && c.len() >= 2 {
        lemma_eval_keeps(st, c[1], (fuel - 1) as nat);
        let (st1, o) = eval(st, c[1], (fuel - 1) as nat);
        if let Outcome::Done(Ok(v)) = o {
            if st1.stack.len() > 0 {
                let name = match c[0] {
                    SNode::Identifier(x) => x,
                    _ => seq![],
                };
                let st2 = set_variable(st1, name, v);
                assert(keeps(st1, st2));
                lemma_keeps_trans(st, st1, st2);
            }
        }
    }
}

proof fn lemma_conditional_keeps(st: RState, c: Seq<SNode>, fuel: nat)
    ensures
        keeps(st, eval_conditional(st, c, fuel).0),
    decreases fuel, 2nat, 0int,
{
    if fuel > 0 && c.len() > 0 {
        lemma_eval_keeps(st, c[0], (fuel - 1) as nat);
        let (st1, o) = eval(st, c[0], (fuel - 1) as nat);
        if o matches Outcome::Done(Ok(SValue::Bool(true))) {
            lemma_block_keeps(st1, c, 1, Err(RuntimeError::NoResultFound), fuel);
            lemma_keeps_trans(
                st,
                st1,
                eval_block(st1, c, 1, Err(RuntimeError::NoResultFound), fuel).0,
            );
        }
    }
}

proof fn lemma_bind_keeps(
    st: RState,
    params: Seq<SNode>,
    args: Seq<SNode>,
    i: int,
    frame: Map<Seq<char>, SValue>,
    fuel: nat,
)
    ensures
        keeps(st, bind_args(st, params, args, i, frame, fuel).0),
    decreases fuel, 0nat, params.len() - i,
{
    if fuel > 0 && 0 <= i < params.len() && i < args.len() {
        lemma_eval_keeps(st, args[i], (fuel - 1) as nat);
        let (st1, o) = eval(st, args[i], (fuel - 1) as nat);
        if let Outcome::Done(Ok(v)) = o {
            match params[i] {
                SNode::Expression(pc) => if pc.len() > 0 {
                    match pc[0] {
                        SNode::Identifier(x) => {
                            lemma_bind_keeps(st1, params, args, i + 1, frame.insert(x, v), fuel);
                            lemma_keeps_trans(
                                st,
                                st1,
                                bind_args(st1, params, args, i + 1, frame.insert(x, v), fuel).0,
                            );
                        },
                        _ => {
                            lemma_bind_keeps(st1, params, args, i + 1, frame, fuel);
                            lemma_keeps_trans(
                                st,
                                st1,
                                bind_args(st1, params, args, i + 1, frame, fuel).0,
                            );
                        },
                    }
                },
                _ => {
                    lemma_bind_keeps(st1, params, args, i + 1, frame, fuel);
                    lemma_keeps_trans(st, st1, bind_args(st1, params, args, i + 1, frame, fuel).0);
                },
            }
        }
    }
}

proof fn lemma_call_keeps(st: RState, name: Seq<char>, c: Seq<SNode>, fuel: nat)
    ensures
        keeps(st, eval_call(st, name, c, fuel).0),
    decreases fuel, 2nat, 0int,
{
    if fuel > 0 && st.functions.contains_key(name) {
        let body = st.functions[name];
        if body.len() > 0 {
            let (st1, b) = match body[0] {
                SNode::FunctionArguments(params) => {
                    lemma_bind_keeps(st, params, call_args(c), 0, Map::empty(), fuel);
                    bind_args(st, params, call_args(c), 0, Map::empty(), fuel)
                },
                _ => (st, Binding::Frame(Map::empty())),
            };
            if let Binding::Frame(frame) = b {
                let sp = push_frame(st1, frame);
                lemma_block_keeps(sp, body, 0, Err(RuntimeError::UndefinedFunction), fuel);
                let st2 = eval_block(sp, body, 0, Err(RuntimeError::UndefinedFunction), fuel).0;
                lemma_keeps_frame(st1, frame, st2);
                lemma_keeps_trans(st, st1, st2);
                lemma_keeps_trans(st, st1, pop_frame(st2));
            }
        }
    }
}

proof fn lemma_types_keeps(st: RState, c: Seq<SNode>, i: int, vals: Seq<SValue>, fuel: nat)
    ensures
        keeps(st, clause_types(st, c, i, vals, fuel).0),
    decreases fuel, 1nat, c.len() - i,
{
    if fuel > 0 && 0 <= i < c.len() {
        if let Some((cc, start)) = clause_parts(c[i]) {
            if cc.len() > 0 {
                lemma_eval_keeps(st, cc.last(), (fuel - 1) as nat);
                let (st1, o) = eval(st, cc.last(), (fuel - 1) as nat);
                match o {
                    Outcome::Done(Ok(v)) => {
                        lemma_types_keeps(st1, c, i + 1, vals.push(v), fuel);
                        lemma_keeps_trans(st, st1, clause_types(st1, c, i + 1, vals.push(v), fuel).0);
                    },
                    Outcome::Done(Err(_)) => {
                        let sp = push_frame(st1, Map::empty());
                        lemma_block_keeps(sp, cc, start, Err(RuntimeError::NoResultFound), fuel);
                        let (st2, o2) = eval_block(
                            sp,
                            cc,
                            start,
                            Err(RuntimeError::NoResultFound),
                            fuel,
                        );
                        lemma_keeps_frame(st1, Map::empty(), st2);
                        lemma_keeps_trans(st, st1, st2);
                        lemma_keeps_trans(st, st1, pop_frame(st2));
                        if let Outcome::Done(Ok(v)) = o2 {
                            lemma_types_keeps(pop_frame(st2), c, i + 1, vals.push(v), fuel);
                            lemma_keeps_trans(
                                st,
                                pop_frame(st2),
                                clause_types(pop_frame(st2), c, i + 1, vals.push(v), fuel).0,
                            );
                        }
                    },
                    _ => {},
                }
            }
        }
    }
}

proof fn lemma_select_keeps(st: RState, c: Seq<SNode>, i: int, fuel: nat)
    ensures
        keeps(st, select_clause(st, c, i, fuel).0),
    decreases fuel, 1nat, c.len() - i,
{
    if fuel > 0 && 0 <= i < c.len() {
        lemma_eval_keeps(st, c[i], (fuel - 1) as nat);
        let (st1, o) = eval(st, c[i], (fuel - 1) as nat);
        if o matches Outcome::Done(Err(RuntimeError::ConditionNotMet)) {
            lemma_select_keeps(st1, c, i + 1, fuel);
            lemma_keeps_trans(st, st1, select_clause(st1, c, i + 1, fuel).0);
        }
    }
}

proof fn lemma_if_keeps(st: RState, c: Seq<SNode>, fuel: nat)
    ensures
        keeps(st, eval_if(st, c, fuel).0),
    decreases fuel, 2nat, 0int,
{
    if fuel > 0 {
        lemma_types_keeps(st, c, 0, seq![], fuel);
        let (st1, t) = clause_types(st, c, 0, seq![], fuel);
        if let ClauseTypes::Values(vals) = t {
            if vals.len() > 0 && c.len() > 0 && consistent(vals) {
                lemma_eval_keeps(st1, c[0], (fuel - 1) as nat);
                let (st2, o) = eval(st1, c[0], (fuel - 1) as nat);
                lemma_keeps_trans(st, st1, st2);
                if o matches Outcome::Done(Err(RuntimeError::ConditionNotMet)) {
                    lemma_select_keeps(st2, c, 1, fuel);
                    lemma_keeps_trans(st, st2, select_clause(st2, c, 1, fuel).0);
                }
            }
        }
    }
}


/// `n` holds no if-expression.
pub open spec fn if_free(n: SNode) -> bool
    decreases n,
{
    match n {
        SNode::IfExpression(_) => false,
        SNode::Program(c) => if_free_seq(c),
        SNode::Statement(c) => if_free_seq(c),
        SNode::FunctionReturn(c) => if_free_seq(c),
        SNode::FunctionDefine(c) => if_free_seq(c),
        SNode::FunctionArguments(c) => if_free_seq(c),
        SNode::FunctionStatements(c) => if_free_seq(c),
        SNode::Expression(c) => if_free_seq(c),
        SNode::MathExpression(_, c) => if_free_seq(c),
        SNode::IfClause(c) => if_free_seq(c),
        SNode::ElseIfClause(c) => if_free_seq(c),
        SNode::ElseClause(c) => if_free_seq(c),
        SNode::FunctionCall(_, c) => if_free_seq(c),
        SNode::VariableDefine(c) => if_free_seq(c),
        _ => true,
    }
}

/// No tree of `s` holds an if-expression.
pub open spec fn if_free_seq(s: Seq<SNode>) -> bool
    decreases s,
{
    if s.len() == 0 {
        true
    } else {
        if_free(s[0]) && if_free_seq(s.subrange(1, s.len() as int))
    }
}

/// `if_free_seq` holds of exactly the sequences whose every tree is free of
/// if-expressions.
pub proof fn lemma_if_free_seq(s: Seq<SNode>)
    ensures
        if_free_seq(s) <==> forall|i: int| 0 <= i < s.len() ==> #[trigger] if_free(s[i]),
    decreases s.len(),
{
    if s.len() > 0 {
        let t = s.subrange(1, s.len() as int);
        lemma_if_free_seq(t);
        if if_free_seq(s) {
            assert forall|i: int| 0 <= i < s.len() implies #[trigger] if_free(s[i]) by {
                if i > 0 {
                    assert(t[i - 1] == s[i]);
                }
            }
        }
        if forall|i: int| 0 <= i < s.len() ==> #[trigger] if_free(s[i]) {
            assert(if_free(s[0]));
            assert forall|i: int| 0 <= i < t.len() implies #[trigger] if_free(t[i]) by {
                assert(t[i] == s[i + 1]);
            }
        }
    }
}

/// Every function body of `st` is free of if-expressions.
pub open spec fn functions_if_free(st: RState) -> bool {
    forall|f: Seq<char>| #[trigger] st.functions.contains_key(f) ==> if_free_seq(st.functions[f])
}

/// A finished evaluation from `st` to `r` leaves the stack as deep as it
/// was, and no if-expression among the functions.
pub open spec fn restores(st: RState, r: (RState, Outcome)) -> bool {
    r.1 is Done ==> r.0.stack.len() == st.stack.len() && functions_if_free(r.0)
}

proof fn lemma_define_if_free(st: RState, name: Seq<char>, body: Seq<SNode>)
    requires
        functions_if_free(st),
        if_free_seq(body),
    ensures
        functions_if_free(define_function(st, name, body)),
{
    let st1 = define_function(st, name, body);
    assert forall|f: Seq<char>| #[trigger] st1.functions.contains_key(f) implies if_free_seq(
        st1.functions[f],
    ) by {
        if f != name {
            assert(st.functions.contains_key(f));
        }
    }
}

proof fn lemma_eval_restores(st: RState, n: SNode, fuel: nat)
    requires
        functions_if_free(st),
        if_free(n),
    ensures
        restores(st, eval(st, n, fuel)),
    decreases fuel, 3nat, 0int,
{
    if fuel > 0 {
        let g = (fuel - 1) as nat;
        match n {
            SNode::Program(items) => lemma_program_restores(st, items, 0, fuel),
            SNode::MathExpression(name, c) => lemma_math_restores(st, name, c, fuel),
            SNode::FunctionCall(name, c) => lemma_call_restores(st, name, c, fuel),
            SNode::FunctionDefine(c) => if c.len() > 0 {
                lemma_if_free_seq(c);
                if let SNode::Identifier(x) = c[0] {
                    assert forall|j: int| 0 <= j < c.skip(1).len() implies #[trigger] if_free(
                        c.skip(1)[j],
                    ) by {
                        assert(c.skip(1)[j] == c[j + 1]);
                        assert(if_free(c[j + 1]));
                    }
                    lemma_if_free_seq(c.skip(1));
                    lemma_define_if_free(st, x, c.skip(1));
                }
            },
            SNode::FunctionReturn(c) => if c.len() > 0 {
                lemma_if_free_seq(c);
                assert(if_free(c[0]));
                lemma_eval_restores(st, c[0], g);
            },
            SNode::Statement(c) => if c.len() > 0 {
                lemma_if_free_seq(c);
                assert(if_free(c[0]));
                lemma_eval_restores(st, c[0], g);
            },
            SNode::VariableDefine(c) => lemma_define_restores(st, c, fuel),
            SNode::Expression(c) => if c.len() > 0 {
                lemma_if_free_seq(c);
                assert(if_free(c[0]));
                lemma_eval_restores(st, c[0], g);
            },
            SNode::IfClause(c) => lemma_conditional_restores(st, c, fuel),
            SNode::ElseIfClause(c) => lemma_conditional_restores(st, c, fuel),
            SNode::ElseClause(c) => lemma_block_restores(
                st,
                c,
                0,
                Err(RuntimeError::NoResultFound),
                fuel,
            ),
            _ => {},
        }
    }
}

proof fn lemma_block_restores(
    st: RState,
    stmts: Seq<SNode>,
    i: int,
    last: Result<SValue, RuntimeError>,
    fuel: nat,
)
    requires
        functions_if_free(st),
        if_free_seq(stmts),
    ensures
        restores(st, eval_block(st, stmts, i, last, fuel)),
    decreases fuel, 0nat, stmts.len() - i,
{
    if fuel > 0 && 0 <= i < stmts.len() {
        lemma_if_free_seq(stmts);
        assert(if_free(stmts[i]));
        lemma_eval_restores(st, stmts[i], (fuel - 1) as nat);
        let (st1, o) = eval(st, stmts[i], (fuel - 1) as nat);
        if let Outcome::Done(r) = o {
            lemma_block_restores(st1, stmts, i + 1, r, fuel);
        }
    }
}

proof fn lemma_program_restores(st: RState, items: Seq<SNode>, i: int, fuel: nat)
    requires
        functions_if_free(st),
        if_free_seq(items),
    ensures
        restores(st, eval_program(st, items, i, fuel)),
    decreases fuel, 0nat, items.len() - i,
{
    if fuel > 0 && 0 <= i < items.len() {
        lemma_if_free_seq(items);
        assert(if_free(items[i]));
        match items[i] {
            SNode::FunctionDefine(..) => {
                lemma_eval_restores(st, items[i], (fuel - 1) as nat);
                let (st1, o) = eval(st, items[i], (fuel - 1) as nat);
                if o matches Outcome::Done(Ok(_)) {
                    lemma_program_restores(st1, items, i + 1, fuel);
                }
            },
            SNode::Expression(..) => {
                let inner = seq![items[i]];
                lemma_if_free_seq(inner);
                let body = seq![SNode::FunctionReturn(inner)];
                lemma_if_free_seq(body);
                lemma_define_if_free(st, main_name(), body);
                lemma_program_restores(define_function(st, main_name(), body), items, i + 1, fuel);
            },
            SNode::Statement(..) => {
                let body = seq![items[i]];
                lemma_if_free_seq(body);
                lemma_define_if_free(st, main_name(), body);
                lemma_program_restores(define_function(st, main_name(), body), items, i + 1, fuel);
            },
            _ => lemma_program_restores(st, items, i + 1, fuel),
        }
    }
}

proof fn lemma_math_restores(st: RState, name: Seq<char>, c: Seq<SNode>, fuel: nat)
    requires
        functions_if_free(st),
        if_free_seq(c),
    ensures
        restores(st, eval_math(st, name, c, fuel)),
    decreases fuel, 2nat, 0int,
{
    let g = (fuel - 1) as nat;
    if fuel > 0 && c.len() > 0 {
        lemma_if_free_seq(c);
        assert(if_free(c[0]));
        lemma_eval_restores(st, c[0], g);
        let (st1, o0) = eval(st, c[0], g);
        if o0 is Done && c.len() >= 2 {
            assert(if_free(c[1]));
            lemma_eval_restores(st1, c[1], g);
        }
    }
}

proof fn lemma_define_restores(st: RState, c: Seq<SNode>, fuel: nat)
    requires
        functions_if_free(st),
        if_free_seq(c),
    ensures
        restores(st, eval_define(st, c, fuel)),
    decreases fuel, 2nat, 0int,
{
    if fuel > 0 && c.len() >= 2 {
        lemma_if_free_seq(c);
        assert(if_free(c[1]));
        lemma_eval_restores(st, c[1], (fuel - 1) as nat);
        let (st1, o) = eval(st, c[1], (fuel - 1) as nat);
        if let Outcome::Done(Ok(v)) = o {
            if st1.stack.len() > 0 {
                let name = match c[0] {
                    SNode::Identifier(x) => x,
                    _ => seq![],
                };
                let st2 = set_variable(st1, name, v);
                assert(st2.functions == st1.functions);
                assert(st2.stack.len() == st1.stack.len());
            }
        }
    }
}

proof fn lemma_conditional_restores(st: RState, c: Seq<SNode>, fuel: nat)
    requires
        functions_if_free(st),
        if_free_seq(c),
    ensures
        restores(st, eval_conditional(st, c, fuel)),
    decreases fuel, 2nat, 0int,
{
    if fuel > 0 && c.len() > 0 {
        lemma_if_free_seq(c);
        assert(if_free(c[0]));
        lemma_eval_restores(st, c[0], (fuel - 1) as nat);
        let (st1, o) = eval(st, c[0], (fuel - 1) as nat);
        if o matches Outcome::Done(Ok(SValue::Bool(true))) {
            lemma_block_restores(st1, c, 1, Err(RuntimeError::NoResultFound), fuel);
        }
    }
}

proof fn lemma_bind_restores(
    st: RState,
    params: Seq<SNode>,
    args: Seq<SNode>,
    i: int,
    frame: Map<Seq<char>, SValue>,
    fuel: nat,
)
    requires
        functions_if_free(st),
        if_free_seq(args),
    ensures
        ({
            let (st1, b) = bind_args(st, params, args, i, frame, fuel);
            (b is Frame || (b is Stop && b->Stop_0 is Done)) ==> st1.stack.len() == st.stack.len()
                && functions_if_free(st1)
        }),
    decreases fuel, 0nat, params.len() - i,
{
    if fuel > 0 && 0 <= i < params.len() && i < args.len() {
        lemma_if_free_seq(args);
        assert(if_free(args[i]));
        lemma_eval_restores(st, args[i], (fuel - 1) as nat);
        let (st1, o) = eval(st, args[i], (fuel - 1) as nat);
        if let Outcome::Done(Ok(v)) = o {
            match params[i] {
                SNode::Expression(pc) => if pc.len() > 0 {
                    match pc[0] {
                        SNode::Identifier(x) => lemma_bind_restores(
                            st1,
                            params,
                            args,
                            i + 1,
                            frame.insert(x, v),
                            fuel,
                        ),
                        _ => lemma_bind_restores(st1, params, args, i + 1, frame, fuel),
                    }
                },
                _ => lemma_bind_restores(st1, params, args, i + 1, frame, fuel),
            }
        }
    }
}

proof fn lemma_call_restores(st: RState, name: Seq<char>, c: Seq<SNode>, fuel: nat)
    requires
        functions_if_free(st),
        if_free_seq(c),
    ensures
        restores(st, eval_call(st, name, c, fuel)),
    decreases fuel, 2nat, 0int,
{
    if fuel > 0 && st.functions.contains_key(name) {
        let body = st.functions[name];
        assert(if_free_seq(body));
        if body.len() > 0 {
            let args = call_args(c);
            assert(if_free_seq(args)) by {
                if c.len() > 0 {
                    lemma_if_free_seq(c);
                    assert(if_free(c[0]));
                }
            }
            let (st1, b) = match body[0] {
                SNode::FunctionArguments(params) => {
                    lemma_bind_restores(st, params, args, 0, Map::empty(), fuel);
                    bind_args(st, params, args, 0, Map::empty(), fuel)
                },
                _ => (st, Binding::Frame(Map::empty())),
            };
            if let Binding::Frame(frame) = b {
                let sp = push_frame(st1, frame);
                assert(sp.functions == st1.functions);
                lemma_block_restores(sp, body, 0, Err(RuntimeError::UndefinedFunction), fuel);
                let (st2, o) = eval_block(sp, body, 0, Err(RuntimeError::UndefinedFunction), fuel);
                if o is Done {
                    assert(st2.stack.len() == st1.stack.len() + 1);
                    assert(pop_frame(st2).functions == st2.functions);
                    assert(pop_frame(st2).stack.len() == st1.stack.len());
                    assert(functions_if_free(pop_frame(st2)));
                }
            }
        }
    }
}

/// Where no if-expression is involved, an evaluation that finishes, with a
/// value or an error, leaves the stack as deep as it found it: the frame a
/// call pushes is popped again. (With `lemma_eval_keeps`, the frames below
/// the current one are unchanged too.) An if-expression is left out because
/// its type check can leave a scratch frame pushed: where a clause's last
/// statement gives an error, the clause runs again in a new frame, and where
/// that run gives an error too, the frame stays.
pub proof fn lemma_eval_restores_depth(st: RState, n: SNode, fuel: nat)
    requires
        functions_if_free(st),
        if_free(n),
        eval(st, n, fuel).1 is Done,
    ensures
        eval(st, n, fuel).0.stack.len() == st.stack.len(),
        functions_if_free(eval(st, n, fuel).0),
{
    lemma_eval_restores(st, n, fuel);
}

/// The same for the evaluation that `Runtime::run` performs: where no
/// if-expression is involved and it finishes, the stack is as deep as before.
pub proof fn lemma_run_restores_depth(st: RState, n: SNode)
    requires
        functions_if_free(st),
        if_free(n),
        evaluation(st, n).1 is Done,
    ensures
        evaluation(st, n).0.stack.len() == st.stack.len(),
{
    let fuel = choose|fuel: nat| !(#[trigger] eval(st, n, fuel).1 is OutOfFuel);
    lemma_eval_restores_depth(st, n, fuel);
}

/// The parameter list of a function whose parameters are `names`.
pub open spec fn param_nodes(names: Seq<Seq<char>>) -> Seq<SNode> {
    Seq::new(names.len(), |j: int| SNode::Expression(seq![SNode::Identifier(names[j])]))
}

/// What `fn f(names) { stmts }` binds `f` to: the parameter list, where there
/// are parameters, then the statements.
pub open spec fn function_body(names: Seq<Seq<char>>, stmts: Seq<SNode>) -> Seq<SNode> {
    if names.len() == 0 {
        stmts
    } else {
        seq![SNode::FunctionArguments(param_nodes(names))] + stmts
    }
}

/// The values of `args[i..k]`, each evaluated in the state that the one
/// before left, appended to `vals`; or the outcome of the first argument that
/// gives no value.
pub open spec fn eval_args(
    st: RState,
    args: Seq<SNode>,
    i: int,
    k: int,
    vals: Seq<SValue>,
    fuel: nat,
) -> (RState, Result<Seq<SValue>, Outcome>)
    decreases k - i,
{
    if i < 0 || i >= k {
        (st, Ok(vals))
    } else {
        let (st1, o) = eval(st, args[i], (fuel - 1) as nat);
        match o {
            Outcome::Done(Ok(v)) => eval_args(st1, args, i + 1, k, vals.push(v), fuel),
            _ => (st1, Err(o)),
        }
    }
}

/// `frame` with `names[j]` bound to `vals[j]` for each `j` from `i` on, in
/// order.
pub open spec fn insert_all(
    frame: Map<Seq<char>, SValue>,
    names: Seq<Seq<char>>,
    vals: Seq<SValue>,
    i: int,
) -> Map<Seq<char>, SValue>
    decreases names.len() - i,
{
    if i < 0 || i >= names.len() {
        frame
    } else {
        insert_all(frame.insert(names[i], vals[i]), names, vals, i + 1)
    }
}

/// A fresh frame that binds each parameter to its argument's value.
pub open spec fn params_frame(names: Seq<Seq<char>>, vals: Seq<SValue>) -> Map<Seq<char>, SValue> {
    insert_all(Map::empty(), names, vals, 0)
}

/// A call of a function with parameters `names` and statements `stmts` on
/// the arguments `args`: the arguments are evaluated in the caller's state;
/// if one gives no value, that ends the call; otherwise the statements run
/// in turn in a fresh frame that binds each parameter to its argument's
/// value, the call gives the result of the last of them, and the frame is
/// popped.
pub open spec fn call_of(
    st: RState,
    names: Seq<Seq<char>>,
    stmts: Seq<SNode>,
    args: Seq<SNode>,
    fuel: nat,
) -> (RState, Outcome) {
    let (st1, r) = eval_args(st, args, 0, names.len() as int, seq![], fuel);
    match r {
        Err(o) => (st1, o),
        Ok(vals) => {
            let before = if names.len() == 0 {
                RuntimeError::UndefinedFunction
            } else {
                RuntimeError::UnhandledNode
            };
            let (st2, o) = eval_block(
                push_frame(st1, params_frame(names, vals)),
                stmts,
                0,
                Err(before),
                fuel,
            );
            match o {
                Outcome::Done(_) => (pop_frame(st2), o),
                _ => (st2, o),
            }
        },
    }
}

proof fn lemma_bind_args_values(
    st: RState,
    names: Seq<Seq<char>>,
    args: Seq<SNode>,
    i: int,
    frame: Map<Seq<char>, SValue>,
    vals: Seq<SValue>,
    fuel: nat,
)
    requires
        fuel > 0,
        0 <= i <= names.len(),
        args.len() >= names.len(),
        vals.len() == i,
    ensures
        ({
            let (sa, b) = bind_args(st, param_nodes(names), args, i, frame, fuel);
            let (sb, r) = eval_args(st, args, i, names.len() as int, vals, fuel);
            &&& sa == sb
            &&& match r {
                Err(o) => b == Binding::Stop(o),
                Ok(vs) => {
                    &&& vs.len() == names.len()
                    &&& vs.subrange(0, i) == vals
                    &&& b == Binding::Frame(insert_all(frame, names, vs, i))
                },
            }
        }),
    decreases names.len() - i,
{
    let params = param_nodes(names);
    if i < names.len() {
        let (st1, o) = eval(st, args[i], (fuel - 1) as nat);
        assert(params[i] == SNode::Expression(seq![SNode::Identifier(names[i])]));
        assert(seq![SNode::Identifier(names[i])][0] == SNode::Identifier(names[i]));
        if let Outcome::Done(Ok(v)) = o {
            lemma_bind_args_values(
                st1,
                names,
                args,
                i + 1,
                frame.insert(names[i], v),
                vals.push(v),
                fuel,
            );
            let (sb, r) = eval_args(st1, args, i + 1, names.len() as int, vals.push(v), fuel);
            if let Ok(vs) = r {
                assert(vs[i] == vals.push(v)[i]);
                assert(vs.subrange(0, i) =~= vs.subrange(0, i + 1).subrange(0, i));
                assert(vals.push(v).subrange(0, i) =~= vals);
            }
        }
    } else {
        assert(vals.subrange(0, i) =~= vals);
    }
}

proof fn lemma_block_shift(
    st: RState,
    x: SNode,
    stmts: Seq<SNode>,
    i: int,
    last: Result<SValue, RuntimeError>,
    fuel: nat,
)
    requires
        0 <= i,
    ensures
        eval_block(st, seq![x] + stmts, i + 1, last, fuel) == eval_block(st, stmts, i, last, fuel),
    decreases stmts.len() - i,
{
    let body = seq![x] + stmts;
    if fuel > 0 && i < stmts.len() {
        assert(body[i + 1] == stmts[i]);
        let (st1, o) = eval(st, stmts[i], (fuel - 1) as nat);
        if let Outcome::Done(r) = o {
            lemma_block_shift(st1, x, stmts, i + 1, r, fuel);
        }
    }
}

/// The law of calls: calling a function defined as `fn f(p_1, .., p_k) {
/// s_1 .. s_n }` with at least `k` arguments evaluates the first `k`
/// arguments in the caller's state, stops at the first that gives no value
/// (an error among them), and otherwise runs `s_1 .. s_n` in turn in a fresh
/// frame that binds `p_j` to the value of the `j`-th argument, giving the
/// result of `s_n` (see `lemma_params_frame` for what the frame holds).
pub proof fn lemma_call(
    st: RState,
    f: Seq<char>,
    names: Seq<Seq<char>>,
    stmts: Seq<SNode>,
    c: Seq<SNode>,
    fuel: nat,
)
    requires
        fuel >= 2,
        st.functions.contains_key(f),
        st.functions[f] == function_body(names, stmts),
        names.len() == 0 ==> stmts.len() > 0 && !(stmts[0] is FunctionArguments),
        call_args(c).len() >= names.len(),
    ensures
        eval_call(st, f, c, fuel) == call_of(st, names, stmts, call_args(c), fuel),
{
    let body = function_body(names, stmts);
    lemma_bind_args_values(st, names, call_args(c), 0, Map::empty(), seq![], fuel);
    if names.len() > 0 {
        assert(body[0] == SNode::FunctionArguments(param_nodes(names)));
        let (st1, r) = eval_args(st, call_args(c), 0, names.len() as int, seq![], fuel);
        if let Ok(vals) = r {
            let pst = push_frame(st1, params_frame(names, vals));
            let fa = SNode::FunctionArguments(param_nodes(names));
            assert(eval(pst, fa, (fuel - 1) as nat) == (pst, Outcome::Done(
                Err::<SValue, RuntimeError>(RuntimeError::UnhandledNode),
            )));
            lemma_block_shift(pst, fa, stmts, 0, Err(RuntimeError::UnhandledNode), fuel);
        }
    } else {
        assert(eval_args(st, call_args(c), 0, 0, seq![], fuel) == (
            st,
            Ok::<Seq<SValue>, Outcome>(seq![]),
        ));
    }
}

/// The law of calls for a call that ends, as `Runtime::run` performs it:
/// the call's state and outcome are those of `call_of`, evaluated with any
/// fuel with which the call ends.
pub proof fn lemma_run_call(
    st: RState,
    f: Seq<char>,
    names: Seq<Seq<char>>,
    stmts: Seq<SNode>,
    c: Seq<SNode>,
    fuel: nat,
)
    requires
        fuel >= 2,
        !(eval(st, SNode::FunctionCall(f, c), fuel).1 is OutOfFuel),
        st.functions.contains_key(f),
        st.functions[f] == function_body(names, stmts),
        names.len() == 0 ==> stmts.len() > 0 && !(stmts[0] is FunctionArguments),
        call_args(c).len() >= names.len(),
    ensures
        evaluation(st, SNode::FunctionCall(f, c)) == call_of(st, names, stmts, call_args(c), fuel),
{
    lemma_evaluation_unique(st, SNode::FunctionCall(f, c), fuel);
    lemma_call(st, f, names, stmts, c, fuel);
}

proof fn lemma_insert_all(
    frame: Map<Seq<char>, SValue>,
    names: Seq<Seq<char>>,
    vals: Seq<SValue>,
    i: int,
)
    requires
        0 <= i <= names.len(),
        vals.len() == names.len(),
    ensures
        forall|k: Seq<char>|
            #[trigger] insert_all(frame, names, vals, i).contains_key(k) <==> (frame.contains_key(k)
                || names.subrange(i, names.len() as int).contains(k)),
        forall|k: Seq<char>|
            frame.contains_key(k) && !names.subrange(i, names.len() as int).contains(k)
                ==> #[trigger] insert_all(frame, names, vals, i)[k] == frame[k],
        names.no_duplicates() ==> forall|j: int|
            i <= j < names.len() ==> #[trigger] insert_all(frame, names, vals, i)[names[j]]
                == vals[j],
    decreases names.len() - i,
{
    if i < names.len() {
        let f1 = frame.insert(names[i], vals[i]);
        lemma_insert_all(f1, names, vals, i + 1);
        let tail = names.subrange(i + 1, names.len() as int);
        let all = names.subrange(i, names.len() as int);
        assert(all =~= seq![names[i]] + tail);
        assert forall|k: Seq<char>| all.contains(k) <==> (k == names[i] || tail.contains(k)) by {
            if all.contains(k) {
                let j = choose|j: int| 0 <= j < all.len() && all[j] == k;
                if j > 0 {
                    assert(tail[j - 1] == k);
                }
            }
            if tail.contains(k) {
                let j = choose|j: int| 0 <= j < tail.len() && tail[j] == k;
                assert(all[j + 1] == k);
            }
            if k == names[i] {
                assert(all[0] == k);
            }
        }
        assert(insert_all(frame, names, vals, i) == insert_all(f1, names, vals, i + 1));
        assert forall|k: Seq<char>|
            #[trigger] insert_all(frame, names, vals, i).contains_key(k) <==> (frame.contains_key(k)
                || all.contains(k)) by {
            assert(insert_all(f1, names, vals, i + 1).contains_key(k) <==> (f1.contains_key(k)
                || tail.contains(k)));
        }
        assert forall|k: Seq<char>|
            frame.contains_key(k) && !all.contains(k) implies #[trigger] insert_all(
                frame,
                names,
                vals,
                i,
            )[k] == frame[k] by {
            assert(f1.contains_key(k) && !tail.contains(k));
        }
        if names.no_duplicates() {
            assert forall|j: int| i <= j < names.len() implies #[trigger] insert_all(
                frame,
                names,
                vals,
                i,
            )[names[j]] == vals[j] by {
                if j == i {
                    assert forall|m: int| 0 <= m < tail.len() implies tail[m] != names[i] by {
                        assert(tail[m] == names[i + 1 + m]);
                    }
                    assert(!tail.contains(names[i]));
                    assert(f1.contains_key(names[i]));
                    assert(insert_all(f1, names, vals, i + 1)[names[i]] == f1[names[i]]);
                } else {
                    assert(insert_all(f1, names, vals, i + 1)[names[j]] == vals[j]);
                }
            }
        }
    } else {
        assert(names.subrange(i, names.len() as int) =~= Seq::<Seq<char>>::empty());
    }
}

/// The frame of a call holds exactly the parameters: a name is bound in it
/// if and only if it is a parameter, and, where no parameter is named twice,
/// the `j`-th parameter is bound to the `j`-th value.
pub proof fn lemma_params_frame(names: Seq<Seq<char>>, vals: Seq<SValue>)
    requires
        vals.len() == names.len(),
    ensures
        forall|k: Seq<char>| #[trigger] params_frame(names, vals).contains_key(k) <==> names.contains(k),
        names.no_duplicates() ==> forall|j: int|
            0 <= j < names.len() ==> #[trigger] params_frame(names, vals)[names[j]] == vals[j],
{
    lemma_insert_all(Map::empty(), names, vals, 0);
    assert(names.subrange(0, names.len() as int) =~= names);
}


/// `math_expression` is `l1`: on every input, from every position, the two
/// rules give the same result, remainder and tree.
pub proof fn lemma_math_expression_is_l1(s: Seq<char>, p: int)
    ensures
        crate::grammar::math_expression(s, p) == crate::grammar::l1(s, p),
{
}


proof fn lemma_caret_is_power(l: i32, r: i32)
    ensures
        arith(seq!['^'], l, r) == match power(l, r as int) {
            Some(x) => Outcome::Done(Ok(SValue::Number(x))),
            None => Outcome::Abort,
        },
{
    assert(seq!['^'][0] != seq!['+'][0]);
    assert(seq!['^'][0] != seq!['-'][0]);
    assert(seq!['^'][0] != seq!['*'][0]);
    assert(seq!['^'][0] != seq!['/'][0]);
}

/// `l ^ r` is `l` multiplied by itself `r` times, from 1, and stops the
/// program where a product leaves `i32`: for `r <= 0` it is 1; for `r > 0`
/// it is `l ^ (r - 1)` times `l`, or stops the program where that product,
/// or `l ^ (r - 1)` itself, does not fit.
pub proof fn lemma_power_step(l: i32, r: i32)
    ensures
        r <= 0 ==> arith(seq!['^'], l, r) == Outcome::Done(Ok::<SValue, RuntimeError>(SValue::Number(1))),
        r > 0 ==> match arith(seq!['^'], l, (r - 1) as i32) {
            Outcome::Done(Ok(SValue::Number(x))) => if i32::MIN <= x * l <= i32::MAX {
                arith(seq!['^'], l, r) == Outcome::Done(
                    Ok::<SValue, RuntimeError>(SValue::Number((x * l) as i32)),
                )
            } else {
                arith(seq!['^'], l, r) is Abort
            },
            _ => arith(seq!['^'], l, r) is Abort,
        },
{
    lemma_caret_is_power(l, r);
    if r > 0 {
        lemma_caret_is_power(l, (r - 1) as i32);
        assert(((r - 1) as i32) as int == r - 1);
    }
}

/// Where `l ^ r` gives a value, for `r >= 0`, that value is the
/// mathematical power; otherwise it stops the program.
pub proof fn lemma_power_value(l: i32, r: i32)
    requires
        r >= 0,
    ensures
        arith(seq!['^'], l, r) matches Outcome::Done(Ok(SValue::Number(v))) ==> v
            == vstd::arithmetic::power::pow(l as int, r as nat),
        arith(seq!['^'], l, r) matches Outcome::Done(Ok(SValue::Number(_))) || arith(
            seq!['^'],
            l,
            r,
        ) is Abort,
    decreases r,
{
    lemma_power_step(l, r);
    if r > 0 {
        lemma_power_value(l, (r - 1) as i32);
        assert(((r - 1) as i32) as nat == (r as nat - 1) as nat);
        vstd::arithmetic::power::lemma_pow_adds(l as int, (r - 1) as nat, 1);
        vstd::arithmetic::power::lemma_pow1(l as int);
    } else {
        vstd::arithmetic::power::lemma_pow0(l as int);
    }
}

/// The state after the clauses `c[i..j)` each gave `ConditionNotMet`, in
/// turn, or `None` where one of them did not.
pub open spec fn all_not_met(st: RState, c: Seq<SNode>, i: int, j: int, fuel: nat) -> Option<
    RState,
>
    decreases j - i,
{
    if j <= i {
        Some(st)
    } else {
        match all_not_met(st, c, i, j - 1, fuel) {
            Some(sk) => {
                let (s2, o) = eval(sk, c[j - 1], (fuel - 1) as nat);
                if o == Outcome::Done(Err::<SValue, RuntimeError>(RuntimeError::ConditionNotMet)) {
                    Some(s2)
                } else {
                    None
                }
            },
            None => None,
        }
    }
}

proof fn lemma_all_not_met_front(st: RState, c: Seq<SNode>, i: int, j: int, fuel: nat)
    requires
        i < j,
    ensures
        all_not_met(st, c, i, j, fuel) == ({
            let (s1, o) = eval(st, c[i], (fuel - 1) as nat);
            if o == Outcome::Done(Err::<SValue, RuntimeError>(RuntimeError::ConditionNotMet)) {
                all_not_met(s1, c, i + 1, j, fuel)
            } else {
                None
            }
        }),
    decreases j - i,
{
    let (s1, o) = eval(st, c[i], (fuel - 1) as nat);
    if j - 1 > i {
        lemma_all_not_met_front(st, c, i, j - 1, fuel);
        if o == Outcome::Done(Err::<SValue, RuntimeError>(RuntimeError::ConditionNotMet)) {
            assert(all_not_met(st, c, i, j - 1, fuel) == all_not_met(s1, c, i + 1, j - 1, fuel));
        } else {
            assert(all_not_met(st, c, i, j - 1, fuel) is None);
        }
    } else {
        assert(all_not_met(st, c, i, i, fuel) == Some(st));
        assert(all_not_met(s1, c, i + 1, i + 1, fuel) == Some(s1));
    }
}

/// Choosing a clause tries every clause from `i` on, in turn: where the
/// clauses `c[i..j)` each give `ConditionNotMet` and `c[j]` gives anything
/// else, the choice ends as `c[j]` does; where every clause from `i` on gives
/// `ConditionNotMet`, so does the choice.
pub proof fn lemma_select_first_met(st: RState, c: Seq<SNode>, i: int, j: int, fuel: nat)
    requires
        fuel > 0,
        0 <= i <= j <= c.len(),
        all_not_met(st, c, i, j, fuel) is Some,
    ensures
        ({
            let sj = all_not_met(st, c, i, j, fuel)->Some_0;
            &&& j < c.len() && eval(sj, c[j], (fuel - 1) as nat).1 != Outcome::Done(
                Err::<SValue, RuntimeError>(RuntimeError::ConditionNotMet),
            ) ==> select_clause(st, c, i, fuel) == eval(sj, c[j], (fuel - 1) as nat)
            &&& j == c.len() ==> select_clause(st, c, i, fuel) == (
                sj,
                Outcome::Done(Err::<SValue, RuntimeError>(RuntimeError::ConditionNotMet)),
            )
        }),
    decreases j - i,
{
    if i < j {
        lemma_all_not_met_front(st, c, i, j, fuel);
        let (s1, o) = eval(st, c[i], (fuel - 1) as nat);
        lemma_select_first_met(s1, c, i + 1, j, fuel);
    }
}

/// An if-expression whose clauses pass the type check takes its first clause
/// whose condition holds (an else clause always does): where the clauses
/// before `c[j]` each give `ConditionNotMet` and `c[j]` gives anything else,
/// the if-expression ends as `c[j]` does; where all give `ConditionNotMet`,
/// so does the if-expression.
pub proof fn lemma_if_takes_first_met(st: RState, c: Seq<SNode>, j: int, fuel: nat)
    requires
        fuel > 0,
        0 <= j <= c.len(),
        c.len() > 0,
        clause_types(st, c, 0, seq![], fuel).1 matches ClauseTypes::Values(vals) && vals.len() > 0
            && consistent(vals),
        all_not_met(clause_types(st, c, 0, seq![], fuel).0, c, 0, j, fuel) is Some,
    ensures
        ({
            let sj = all_not_met(clause_types(st, c, 0, seq![], fuel).0, c, 0, j, fuel)->Some_0;
            &&& j < c.len() && eval(sj, c[j], (fuel - 1) as nat).1 != Outcome::Done(
                Err::<SValue, RuntimeError>(RuntimeError::ConditionNotMet),
            ) ==> eval_if(st, c, fuel) == eval(sj, c[j], (fuel - 1) as nat)
            &&& j == c.len() ==> eval_if(st, c, fuel) == (
                sj,
                Outcome::Done(Err::<SValue, RuntimeError>(RuntimeError::ConditionNotMet)),
            )
        }),
{
    let st1 = clause_types(st, c, 0, seq![], fuel).0;
    if j > 0 {
        lemma_all_not_met_front(st1, c, 0, j, fuel);
        let (s2, o) = eval(st1, c[0], (fuel - 1) as nat);
        lemma_select_first_met(s2, c, 1, j, fuel);
    }
}


/// Sums, differences and products are the mathematical ones, and stop the
/// program where they leave `i32`.
pub proof fn lemma_sum_difference_product(l: i32, r: i32)
    ensures
        arith(seq!['+'], l, r) == if i32::MIN <= l + r <= i32::MAX {
            Outcome::Done(Ok::<SValue, RuntimeError>(SValue::Number((l + r) as i32)))
        } else {
            Outcome::Abort
        },
        arith(seq!['-'], l, r) == if i32::MIN <= l - r <= i32::MAX {
            Outcome::Done(Ok::<SValue, RuntimeError>(SValue::Number((l - r) as i32)))
        } else {
            Outcome::Abort
        },
        arith(seq!['*'], l, r) == if i32::MIN <= l * r <= i32::MAX {
            Outcome::Done(Ok::<SValue, RuntimeError>(SValue::Number((l * r) as i32)))
        } else {
            Outcome::Abort
        },
{
    assert(seq!['-'][0] != seq!['+'][0]);
    assert(seq!['*'][0] != seq!['+'][0]);
    assert(seq!['*'][0] != seq!['-'][0]);
}

/// Division rounds toward zero: by zero it stops the program; otherwise the
/// quotient `q` leaves a remainder `l - q * r` that is smaller than `r` in
/// size and has the sign of `l` (or is zero), and a quotient outside `i32`
/// (`i32::MIN / -1`) stops the program.
pub proof fn lemma_division(l: i32, r: i32)
    ensures
        r == 0 ==> arith(seq!['/'], l, r) is Abort,
        r != 0 ==> (arith(seq!['/'], l, r) is Abort <==> (l == i32::MIN && r == -1)),
        arith(seq!['/'], l, r) matches Outcome::Done(Ok(SValue::Number(q))) ==> {
            let m = l - q * r;
            &&& r != 0
            &&& (if m < 0 { -m } else { m }) < (if r < 0 { -r } else { r as int })
            &&& (m == 0 || (m < 0) == (l < 0))
        },
        arith(seq!['/'], l, r) is Done ==> arith(seq!['/'], l, r) matches Outcome::Done(
            Ok(SValue::Number(_)),
        ),
{
    assert(seq!['/'][0] != seq!['+'][0]);
    assert(seq!['/'][0] != seq!['-'][0]);
    assert(seq!['/'][0] != seq!['*'][0]);
    if r != 0 {
        let al: int = if l < 0 { -l } else { l as int };
        let ar: int = if r < 0 { -r } else { r as int };
        let qa = al / ar;
        let ma = al % ar;
        assert(al == qa * ar + ma && 0 <= ma < ar) by (nonlinear_arith)
            requires
                ar > 0,
                al >= 0,
                qa == al / ar,
                ma == al % ar,
        ;
        assert(0 <= qa <= al) by (nonlinear_arith)
            requires
                ar > 0,
                al >= 0,
                qa == al / ar,
        ;
        let q = crate::semantics::truncated_div(l as int, r as int);
        if (l < 0) == (r < 0) {
            assert(q == qa);
            assert(l - q * r == (if l < 0 { -ma } else { ma })) by (nonlinear_arith)
                requires
                    q == qa,
                    al == qa * ar + ma,
                    al == (if l < 0 { -l } else { l as int }),
                    ar == (if r < 0 { -r } else { r as int }),
                    (l < 0) == (r < 0),
            ;
        } else {
            assert(q == -qa);
            assert(l - q * r == (if l < 0 { -ma } else { ma })) by (nonlinear_arith)
                requires
                    q == -qa,
                    al == qa * ar + ma,
                    al == (if l < 0 { -l } else { l as int }),
                    ar == (if r < 0 { -r } else { r as int }),
                    (l < 0) != (r < 0),
            ;
        }
        if l == i32::MIN && r == -1 {
            assert(qa == al);
            assert(q == 0x8000_0000);
        } else {
            if r == -1 || r == 1 {
                assert(qa == al) by (nonlinear_arith)
                    requires
                        ar == 1,
                        qa == al / ar,
                ;
            } else {
                assert(qa <= al / 2) by (nonlinear_arith)
                    requires
                        ar >= 2,
                        al >= 0,
                        qa == al / ar,
                ;
            }
        }
    }
}

} // verus!
