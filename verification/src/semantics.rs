//! What evaluating a tree does, stated over mathematical values.
//!
//! `eval(st, n, fuel)` gives the state after evaluating `n` in `st` and the
//! outcome: a value or an error (`Outcome::Done`), a step at which the
//! evaluator stops the program (`Outcome::Abort`: an index out of range, an
//! arithmetic overflow, a division by zero, reading the frame of an empty
//! stack), or `Outcome::OutOfFuel` when `fuel` nested evaluations were not
//! enough. Every nested evaluation takes one unit of fuel.
use crate::node::SNode;
use vstd::prelude::*;

verus! {

/// The value of an expression.
pub enum SValue {
    String(Seq<char>),
    Number(i32),
    Bool(bool),
}

/// The errors that evaluation reports.
#[derive(Debug, Clone, Copy, PartialEq, Eq, Structural)]
pub enum RuntimeError {
    UndefinedOperator,
    CannotDoMath,
    UndefinedFunction,
    UndefinedVariable,
    UnknownStatement,
    UnknownExpression,
    NoResultFound,
    InvalidIfExpression,
    InconsistentType,
    ConditionNotMet,
    UnexpectedConditional,
    UnhandledNode,
}

impl RuntimeError {
    pub open spec fn spec_message(self) -> Seq<char> {
        match self {
            RuntimeError::UndefinedOperator => "Undefined operator"@,
            RuntimeError::CannotDoMath => "Cannot do math on String or Bool or undefined variable referenced"@,
            RuntimeError::UndefinedFunction => "Undefined function"@,
            RuntimeError::UndefinedVariable => "Undefined variable"@,
            RuntimeError::UnknownStatement => "Unknown Statement"@,
            RuntimeError::UnknownExpression => "Unknown Expression"@,
            RuntimeError::NoResultFound => "No result found"@,
            RuntimeError::InvalidIfExpression => "Invalid If Expression"@,
            RuntimeError::InconsistentType => "Inconsistent type used in if expression"@,
            RuntimeError::ConditionNotMet => "Condition not met"@,
            RuntimeError::UnexpectedConditional => "Unexpected conditional expression"@,
            RuntimeError::UnhandledNode => "Unhandled Node"@,
        }
    }

    /// The message of the error.
    pub fn message(&self) -> (m: &'static str)
        ensures
            m@ == self.spec_message(),
    {
        match self {
            RuntimeError::UndefinedOperator => "Undefined operator",
            RuntimeError::CannotDoMath => "Cannot do math on String or Bool or undefined variable referenced",
            RuntimeError::UndefinedFunction => "Undefined function",
            RuntimeError::UndefinedVariable => "Undefined variable",
            RuntimeError::UnknownStatement => "Unknown Statement",
            RuntimeError::UnknownExpression => "Unknown Expression",
            RuntimeError::NoResultFound => "No result found",
            RuntimeError::InvalidIfExpression => "Invalid If Expression",
            RuntimeError::InconsistentType => "Inconsistent type used in if expression",
            RuntimeError::ConditionNotMet => "Condition not met",
            RuntimeError::UnexpectedConditional => "Unexpected conditional expression",
            RuntimeError::UnhandledNode => "Unhandled Node",
        }
    }
}

/// Distinct errors have distinct messages, so a message names its error.
pub proof fn lemma_message_names_error(a: RuntimeError, b: RuntimeError)
    ensures
        a.spec_message() == b.spec_message() ==> a == b,
{
    if a.spec_message() == b.spec_message() {
        reveal_strlit("Undefined operator");
        reveal_strlit("Cannot do math on String or Bool or undefined variable referenced");
        reveal_strlit("Undefined function");
        reveal_strlit("Undefined variable");
        reveal_strlit("Unknown Statement");
        reveal_strlit("Unknown Expression");
        reveal_strlit("No result found");
        reveal_strlit("Invalid If Expression");
        reveal_strlit("Inconsistent type used in if expression");
        reveal_strlit("Condition not met");
        reveal_strlit("Unexpected conditional expression");
        reveal_strlit("Unhandled Node");
        assert(a.spec_message().len() == b.spec_message().len());
        assert(a.spec_message()[0] == b.spec_message()[0]);
        assert(a.spec_message()[10] == b.spec_message()[10]);
        assert(a.spec_message()[8] == b.spec_message()[8]);
    }
}

/// The interpreter's state: the defined functions, by name, with their
/// bodies, and the stack of variable frames, the top frame last.
pub struct RState {
    pub functions: Map<Seq<char>, Seq<SNode>>,
    pub stack: Seq<Map<Seq<char>, SValue>>,
}

/// How an evaluation ends.
pub enum Outcome {
    Done(Result<SValue, RuntimeError>),
    Abort,
    OutOfFuel,
}

pub open spec fn empty_state() -> RState {
    RState { functions: Map::empty(), stack: seq![] }
}

pub open spec fn main_name() -> Seq<char> {
    seq!['m', 'a', 'i', 'n']
}

/// The call that starts a program.
pub open spec fn main_call() -> SNode {
    SNode::FunctionCall(main_name(), seq![])
}

pub open spec fn define_function(st: RState, name: Seq<char>, body: Seq<SNode>) -> RState {
    RState { functions: st.functions.insert(name, body), ..st }
}

pub open spec fn push_frame(st: RState, frame: Map<Seq<char>, SValue>) -> RState {
    RState { stack: st.stack.push(frame), ..st }
}

/// Removes the top frame, if there is one.
pub open spec fn pop_frame(st: RState) -> RState {
    if st.stack.len() > 0 {
        RState { stack: st.stack.drop_last(), ..st }
    } else {
        st
    }
}

/// Binds `name` to `v` in the top frame.
pub open spec fn set_variable(st: RState, name: Seq<char>, v: SValue) -> RState
    recommends
        st.stack.len() > 0,
{
    RState {
        stack: st.stack.update(st.stack.len() - 1, st.stack.last().insert(name, v)),
        ..st
    }
}

pub open spec fn ok(st: RState, v: SValue) -> (RState, Outcome) {
    (st, Outcome::Done(Ok(v)))
}

pub open spec fn fail(st: RState, e: RuntimeError) -> (RState, Outcome) {
    (st, Outcome::Done(Err(e)))
}

/// Both values are strings, both numbers, or both booleans.
pub open spec fn same_kind(a: SValue, b: SValue) -> bool {
    match (a, b) {
        (SValue::String(..), SValue::String(..)) => true,
        (SValue::Number(..), SValue::Number(..)) => true,
        (SValue::Bool(..), SValue::Bool(..)) => true,
        _ => false,
    }
}

pub open spec fn in_i32(x: int) -> bool {
    i32::MIN <= x <= i32::MAX
}

/// `l` to the power `n` by repeated multiplication from 1, or `None` when a
/// product leaves `i32`.
pub open spec fn power(l: i32, n: int) -> Option<i32>
    decreases n,
{
    if n <= 0 {
        Some(1)
    } else {
        match power(l, n - 1) {
            Some(x) => if in_i32(x * l) {
                Some((x * l) as i32)
            } else {
                None
            },
            None => None,
        }
    }
}

pub open spec fn abs(x: int) -> int {
    if x < 0 {
        -x
    } else {
        x
    }
}

/// Division rounded toward zero.
pub open spec fn truncated_div(l: int, r: int) -> int {
    let q = abs(l) / abs(r);
    if (l < 0) == (r < 0) {
        q
    } else {
        -q
    }
}

pub open spec fn number(x: int) -> Outcome {
    if in_i32(x) {
        Outcome::Done(Ok(SValue::Number(x as i32)))
    } else {
        Outcome::Abort
    }
}

/// The operator `name` applied to two numbers.
pub open spec fn arith(name: Seq<char>, l: i32, r: i32) -> Outcome {
    if name == seq!['+'] {
        number(l + r)
    } else if name == seq!['-'] {
        number(l - r)
    } else if name == seq!['*'] {
        number(l * r)
    } else if name == seq!['/'] {
        if r == 0 {
            Outcome::Abort
        } else {
            number(truncated_div(l as int, r as int))
        }
    } else if name == seq!['^'] {
        match power(l, r as int) {
            Some(x) => Outcome::Done(Ok(SValue::Number(x))),
            None => Outcome::Abort,
        }
    } else {
        Outcome::Done(Err(RuntimeError::UndefinedOperator))
    }
}

/// The result of binding a call's arguments: the new frame, or the outcome
/// that ends the call early.
pub enum Binding {
    Frame(Map<Seq<char>, SValue>),
    Stop(Outcome),
}

/// The return values that the clauses of an if-expression give, or the
/// outcome that ends the if-expression early.
pub enum ClauseTypes {
    Values(Seq<SValue>),
    Stop(Outcome),
}

/// Evaluates `n` in `st`.
pub open spec fn eval(st: RState, n: SNode, fuel: nat) -> (RState, Outcome)
    decreases fuel, 3nat, 0int,
{
    if fuel == 0 {
        (st, Outcome::OutOfFuel)
    } else {
        let f = (fuel - 1) as nat;
        match n {
            SNode::Program(items) => eval_program(st, items, 0, fuel),
            SNode::MathExpression(name, c) => eval_math(st, name, c, fuel),
            SNode::FunctionCall(name, c) => eval_call(st, name, c, fuel),
            SNode::FunctionDefine(c) => if c.len() == 0 {
                (st, Outcome::Abort)
            } else {
                match c[0] {
                    SNode::Identifier(x) => ok(
                        define_function(st, x, c.skip(1)),
                        SValue::Bool(true),
                    ),
                    _ => ok(st, SValue::Bool(true)),
                }
            },
            SNode::FunctionReturn(c) => if c.len() == 0 {
                (st, Outcome::Abort)
            } else {
                eval(st, c[0], f)
            },
            SNode::Identifier(x) => if st.stack.len() == 0 {
                (st, Outcome::Abort)
            } else if st.stack.last().contains_key(x) {
                ok(st, st.stack.last()[x])
            } else {
                fail(st, RuntimeError::UndefinedVariable)
            },
            SNode::Statement(c) => if c.len() == 0 {
                (st, Outcome::Abort)
            } else if c[0] is VariableDefine || c[0] is FunctionReturn {
                eval(st, c[0], f)
            } else {
                fail(st, RuntimeError::UnknownStatement)
            },
            SNode::VariableDefine(c) => eval_define(st, c, fuel),
            SNode::Expression(c) => if c.len() == 0 {
                (st, Outcome::Abort)
            } else if c[0] is MathExpression || c[0] is Number || c[0] is FunctionCall
                || c[0] is String || c[0] is Bool || c[0] is Identifier || c[0] is IfExpression {
                eval(st, c[0], f)
            } else {
                fail(st, RuntimeError::UnknownExpression)
            },
            SNode::IfExpression(c) => eval_if(st, c, fuel),
            SNode::IfClause(c) => eval_conditional(st, c, fuel),
            SNode::ElseIfClause(c) => eval_conditional(st, c, fuel),
            SNode::ElseClause(c) => eval_block(st, c, 0, Err(RuntimeError::NoResultFound), fuel),
            SNode::Number(v) => ok(st, SValue::Number(v)),
            SNode::String(s) => ok(st, SValue::String(s)),
            SNode::Bool(b) => ok(st, SValue::Bool(b)),
            _ => fail(st, RuntimeError::UnhandledNode),
        }
    }
}

/// Evaluates `stmts[i..]` in turn; the result is that of the last one
/// evaluated, or `last` when there is none.
pub open spec fn eval_block(
    st: RState,
    stmts: Seq<SNode>,
    i: int,
    last: Result<SValue, RuntimeError>,
    fuel: nat,
) -> (RState, Outcome)
    decreases fuel, 0nat, stmts.len() - i,
{
    if fuel == 0 {
        (st, Outcome::OutOfFuel)
    } else if i < 0 || i >= stmts.len() {
        (st, Outcome::Done(last))
    } else {
        let (st1, o) = eval(st, stmts[i], (fuel - 1) as nat);
        match o {
            Outcome::Done(r) => eval_block(st1, stmts, i + 1, r, fuel),
            _ => (st1, o),
        }
    }
}

/// The items of a program from `i` on: function definitions are evaluated,
/// and an expression or statement becomes the body of `main`.
pub open spec fn eval_program(st: RState, items: Seq<SNode>, i: int, fuel: nat) -> (
    RState,
    Outcome,
)
    decreases fuel, 0nat, items.len() - i,
{
    if fuel == 0 {
        (st, Outcome::OutOfFuel)
    } else if i < 0 || i >= items.len() {
        ok(st, SValue::Bool(true))
    } else {
        match items[i] {
            SNode::FunctionDefine(..) => {
                let (st1, o) = eval(st, items[i], (fuel - 1) as nat);
                match o {
                    Outcome::Done(Ok(_)) => eval_program(st1, items, i + 1, fuel),
                    _ => (st1, o),
                }
            },
            SNode::Expression(..) => eval_program(
                define_function(st, main_name(), seq![SNode::FunctionReturn(seq![items[i]])]),
                items,
                i + 1,
                fuel,
            ),
            SNode::Statement(..) => eval_program(
                define_function(st, main_name(), seq![items[i]]),
                items,
                i + 1,
                fuel,
            ),
            _ => eval_program(st, items, i + 1, fuel),
        }
    }
}

/// `c[0] name c[1]`: both operands are evaluated, then combined.
pub open spec fn eval_math(st: RState, name: Seq<char>, c: Seq<SNode>, fuel: nat) -> (
    RState,
    Outcome,
)
    decreases fuel, 2nat, 0int,
{
    if fuel == 0 {
        (st, Outcome::OutOfFuel)
    } else if c.len() == 0 {
        (st, Outcome::Abort)
    } else {
        let (st1, o0) = eval(st, c[0], (fuel - 1) as nat);
        if !(o0 is Done) {
            (st1, o0)
        } else if c.len() < 2 {
            (st1, Outcome::Abort)
        } else {
            let (st2, o1) = eval(st1, c[1], (fuel - 1) as nat);
            if !(o1 is Done) {
                (st2, o1)
            } else {
                match (o0, o1) {
                    (
                        Outcome::Done(Ok(SValue::Number(l))),
                        Outcome::Done(Ok(SValue::Number(r))),
                    ) => (st2, arith(name, l, r)),
                    _ => fail(st2, RuntimeError::CannotDoMath),
                }
            }
        }
    }
}

/// `let c[0] = c[1]`: the value is bound in the top frame.
pub open spec fn eval_define(st: RState, c: Seq<SNode>, fuel: nat) -> (RState, Outcome)
    decreases fuel, 2nat, 0int,
{
    if fuel == 0 {
        (st, Outcome::OutOfFuel)
    } else if c.len() < 2 {
        (st, Outcome::Abort)
    } else {
        let name = match c[0] {
            SNode::Identifier(x) => x,
            _ => seq![],
        };
        let (st1, o) = eval(st, c[1], (fuel - 1) as nat);
        match o {
            Outcome::Done(Ok(v)) => if st1.stack.len() == 0 {
                (st1, Outcome::Abort)
            } else {
                ok(set_variable(st1, name, v), v)
            },
            _ => (st1, o),
        }
    }
}

/// An if or else-if clause: `c[0]` is the condition, `c[1..]` the body.
pub open spec fn eval_conditional(st: RState, c: Seq<SNode>, fuel: nat) -> (RState, Outcome)
    decreases fuel, 2nat, 0int,
{
    if fuel == 0 {
        (st, Outcome::OutOfFuel)
    } else if c.len() == 0 {
        (st, Outcome::Abort)
    } else {
        let (st1, o) = eval(st, c[0], (fuel - 1) as nat);
        match o {
            Outcome::Done(Ok(SValue::Bool(true))) => eval_block(
                st1,
                c,
                1,
                Err(RuntimeError::NoResultFound),
                fuel,
            ),
            Outcome::Done(Ok(SValue::Bool(false))) => fail(st1, RuntimeError::ConditionNotMet),
            Outcome::Done(Ok(_)) => fail(st1, RuntimeError::UnexpectedConditional),
            _ => (st1, o),
        }
    }
}

/// Binds the values of `args` to the parameters `params[i..]` in `frame`.
/// The arguments are evaluated in the caller's state.
pub open spec fn bind_args(
    st: RState,
    params: Seq<SNode>,
    args: Seq<SNode>,
    i: int,
    frame: Map<Seq<char>, SValue>,
    fuel: nat,
) -> (RState, Binding)
    decreases fuel, 0nat, params.len() - i,
{
    if fuel == 0 {
        (st, Binding::Stop(Outcome::OutOfFuel))
    } else if i < 0 || i >= params.len() {
        (st, Binding::Frame(frame))
    } else if i >= args.len() {
        (st, Binding::Stop(Outcome::Abort))
    } else {
        let (st1, o) = eval(st, args[i], (fuel - 1) as nat);
        match o {
            Outcome::Done(Ok(v)) => match params[i] {
                SNode::Expression(pc) => if pc.len() == 0 {
                    (st1, Binding::Stop(Outcome::Abort))
                } else {
                    match pc[0] {
                        SNode::Identifier(x) => bind_args(
                            st1,
                            params,
                            args,
                            i + 1,
                            frame.insert(x, v),
                            fuel,
                        ),
                        _ => bind_args(st1, params, args, i + 1, frame, fuel),
                    }
                },
                _ => bind_args(st1, params, args, i + 1, frame, fuel),
            },
            _ => (st1, Binding::Stop(o)),
        }
    }
}

/// The arguments of a call: the children of its first child when that is a
/// `FunctionArguments`, else its children.
pub open spec fn call_args(c: Seq<SNode>) -> Seq<SNode> {
    if c.len() > 0 {
        match c[0] {
            SNode::FunctionArguments(a) => a,
            _ => c,
        }
    } else {
        c
    }
}

/// A call of `name`: the arguments are bound, a frame is pushed, every
/// statement of the body is evaluated, and the frame is popped.
pub open spec fn eval_call(st: RState, name: Seq<char>, c: Seq<SNode>, fuel: nat) -> (
    RState,
    Outcome,
)
    decreases fuel, 2nat, 0int,
{
    if fuel == 0 {
        (st, Outcome::OutOfFuel)
    } else if !st.functions.contains_key(name) {
        fail(st, RuntimeError::UndefinedFunction)
    } else {
        let body = st.functions[name];
        if body.len() == 0 {
            (st, Outcome::Abort)
        } else {
            let (st1, b) = match body[0] {
                SNode::FunctionArguments(params) => bind_args(
                    st,
                    params,
                    call_args(c),
                    0,
                    Map::empty(),
                    fuel,
                ),
                _ => (st, Binding::Frame(Map::empty())),
            };
            match b {
                Binding::Stop(o) => (st1, o),
                Binding::Frame(frame) => {
                    let (st2, o) = eval_block(
                        push_frame(st1, frame),
                        body,
                        0,
                        Err(RuntimeError::UndefinedFunction),
                        fuel,
                    );
                    match o {
                        Outcome::Done(_) => (pop_frame(st2), o),
                        _ => (st2, o),
                    }
                },
            }
        }
    }
}

/// The clause body used when a clause's last statement gives an error: the
/// statements after the condition, or all statements of an else clause.
pub open spec fn clause_parts(n: SNode) -> Option<(Seq<SNode>, int)> {
    match n {
        SNode::IfClause(cc) => Some((cc, 1)),
        SNode::ElseIfClause(cc) => Some((cc, 1)),
        SNode::ElseClause(cc) => Some((cc, 0)),
        _ => None,
    }
}

/// The return value of each clause from `i` on, found by evaluating its last
/// statement, or, when that gives an error, its statements in a new frame.
pub open spec fn clause_types(
    st: RState,
    c: Seq<SNode>,
    i: int,
    vals: Seq<SValue>,
    fuel: nat,
) -> (RState, ClauseTypes)
    decreases fuel, 1nat, c.len() - i,
{
    if fuel == 0 {
        (st, ClauseTypes::Stop(Outcome::OutOfFuel))
    } else if i < 0 || i >= c.len() {
        (st, ClauseTypes::Values(vals))
    } else {
        match clause_parts(c[i]) {
            None => (st, ClauseTypes::Stop(Outcome::Done(Err(RuntimeError::InvalidIfExpression)))),
            Some((cc, start)) => if cc.len() == 0 {
                (st, ClauseTypes::Stop(Outcome::Abort))
            } else {
                let (st1, o) = eval(st, cc.last(), (fuel - 1) as nat);
                match o {
                    Outcome::Done(Ok(v)) => clause_types(st1, c, i + 1, vals.push(v), fuel),
                    Outcome::Done(Err(_)) => {
                        let (st2, o2) = eval_block(
                            push_frame(st1, Map::empty()),
                            cc,
                            start,
                            Err(RuntimeError::NoResultFound),
                            fuel,
                        );
                        match o2 {
                            Outcome::Done(Ok(v)) => clause_types(
                                pop_frame(st2),
                                c,
                                i + 1,
                                vals.push(v),
                                fuel,
                            ),
                            _ => (st2, ClauseTypes::Stop(o2)),
                        }
                    },
                    _ => (st1, ClauseTypes::Stop(o)),
                }
            },
        }
    }
}

/// The first clause from `i` on whose condition holds.
pub open spec fn select_clause(st: RState, c: Seq<SNode>, i: int, fuel: nat) -> (
    RState,
    Outcome,
)
    decreases fuel, 1nat, c.len() - i,
{
    if fuel == 0 {
        (st, Outcome::OutOfFuel)
    } else if i < 0 || i >= c.len() {
        fail(st, RuntimeError::ConditionNotMet)
    } else {
        let (st1, o) = eval(st, c[i], (fuel - 1) as nat);
        match o {
            Outcome::Done(Err(RuntimeError::ConditionNotMet)) => select_clause(st1, c, i + 1, fuel),
            _ => (st1, o),
        }
    }
}

/// All the return values have the kind of the first.
pub open spec fn consistent(vals: Seq<SValue>) -> bool {
    forall|j: int| 1 <= j < vals.len() ==> same_kind(vals[0], #[trigger] vals[j])
}

/// An if-expression: every clause's return value must have the same kind;
/// then the clauses are tried in order.
pub open spec fn eval_if(st: RState, c: Seq<SNode>, fuel: nat) -> (RState, Outcome)
    decreases fuel, 2nat, 0int,
{
    if fuel == 0 {
        (st, Outcome::OutOfFuel)
    } else {
        let (st1, t) = clause_types(st, c, 0, seq![], fuel);
        match t {
            ClauseTypes::Stop(o) => (st1, o),
            ClauseTypes::Values(vals) => if vals.len() == 0 || c.len() == 0 {
                (st1, Outcome::Abort)
            } else if !consistent(vals) {
                fail(st1, RuntimeError::InconsistentType)
            } else {
                let (st2, o) = eval(st1, c[0], (fuel - 1) as nat);
                match o {
                    Outcome::Done(Err(RuntimeError::ConditionNotMet)) => select_clause(
                        st2,
                        c,
                        1,
                        fuel,
                    ),
                    _ => (st2, o),
                }
            },
        }
    }
}

/// Running a program: its tree is evaluated in an empty state, then `main`
/// is called.
pub open spec fn interpret(n: SNode, fuel: nat) -> Outcome {
    let (st1, o1) = eval(empty_state(), n, fuel);
    match o1 {
        Outcome::Done(_) => eval(st1, main_call(), fuel).1,
        _ => o1,
    }
}

/// Evaluating `n` in `st`, with fuel enough for it to end (when it ends).
pub open spec fn evaluation(st: RState, n: SNode) -> (RState, Outcome) {
    eval(st, n, choose|fuel: nat| !(#[trigger] eval(st, n, fuel).1 is OutOfFuel))
}

/// Running the program `n`, with fuel enough for it to end (when it ends).
pub open spec fn program_outcome(n: SNode) -> Outcome {
    interpret(n, choose|fuel: nat| !(#[trigger] interpret(n, fuel) is OutOfFuel))
}

/// The largest fuel a run can be given: `u64::MAX` nested evaluations, a
/// depth of recursion that no machine's stack reaches.
pub open spec fn max_fuel() -> nat {
    u64::MAX as nat
}

/// Evaluating `n` in `st` ends within `max_fuel()` nested evaluations.
pub open spec fn ends_within_max(st: RState, n: SNode) -> bool {
    !(eval(st, n, max_fuel()).1 is OutOfFuel)
}

/// Running the program `n` ends within `max_fuel()` nested evaluations.
pub open spec fn program_ends_within_max(n: SNode) -> bool {
    !(interpret(n, max_fuel()) is OutOfFuel)
}

} // verus!
