//! The interpreter: a runtime that walks a syntax tree, proved to do what
//! `semantics::eval` says.
use crate::bindings::Bindings;
use crate::laws::{keeps, lemma_eval_keeps, lemma_evaluation_unique, lemma_program_outcome_unique};
use crate::node::{copy_nodes, copy_nodes_from, nodes_view, single, Node, SNode};
use crate::semantics::{
    arith, bind_args, call_args, clause_types, consistent, eval, eval_block, eval_call,
    eval_conditional, eval_define, eval_if, eval_math, eval_program, evaluation, interpret,
    main_call, program_outcome, max_fuel, ends_within_max, program_ends_within_max,
    main_name, power, same_kind, select_clause, Outcome,
    RState, RuntimeError, SValue,
};
use vstd::prelude::*;

verus! {

/// The value of an expression.
#[derive(Debug, PartialEq, Clone)]
pub enum Value {
    String(String),
    Number(i32),
    Bool(bool),
}

impl DeepView for Value {
    type V = SValue;

    open spec fn deep_view(&self) -> SValue {
        match self {
            Value::String(s) => SValue::String(s@),
            Value::Number(n) => SValue::Number(*n),
            Value::Bool(b) => SValue::Bool(*b),
        }
    }
}

impl View for Value {
    type V = SValue;

    open spec fn view(&self) -> SValue {
        self.deep_view()
    }
}

impl Value {
    /// A copy of the value.
    pub fn duplicate(&self) -> (r: Value)
        ensures
            r@ == self@,
    {
        match self {
            Value::String(s) => Value::String(s.clone()),
            Value::Number(n) => Value::Number(*n),
            Value::Bool(b) => Value::Bool(*b),
        }
    }
}

pub open spec fn result_view(r: Result<Value, RuntimeError>) -> Result<SValue, RuntimeError> {
    match r {
        Ok(v) => Ok(v@),
        Err(e) => Err(e),
    }
}

/// `r` is the outcome `o`: `None` for `Outcome::Abort`.
pub open spec fn matches_outcome(r: Option<Result<Value, RuntimeError>>, o: Outcome) -> bool {
    match r {
        None => o is Abort,
        Some(res) => o == Outcome::Done(result_view(res)),
    }
}

/// The interpreter's state: the defined functions and the stack of frames.
pub struct Runtime {
    functions: Bindings<Vec<Node>>,
    stack: Vec<Bindings<Value>>,
}

proof fn lemma_deep_view_nodes(v: Vec<Node>)
    ensures
        v.deep_view() == nodes_view(v@),
{
    assert(v.deep_view() =~= nodes_view(v@));
}

impl View for Runtime {
    type V = RState;

    /// The defined functions and the stack of frames, as maps.
    closed spec fn view(&self) -> RState {
        RState {
            functions: self.functions@,
            stack: Seq::new(self.stack@.len(), |i: int| self.stack@[i]@),
        }
    }
}

impl Runtime {
    pub closed spec fn wf(&self) -> bool {
        &&& self.functions.wf()
        &&& forall|i: int| 0 <= i < self.stack@.len() ==> (#[trigger] self.stack@[i]).wf()
    }

    /// A runtime with no functions and an empty stack.
    pub fn new() -> (rt: Runtime)
        ensures
            rt.wf(),
            rt@ == crate::semantics::empty_state(),
    {
        let rt = Runtime { functions: Bindings::new(), stack: Vec::new() };
        assert(rt@.stack =~= Seq::<Map<Seq<char>, SValue>>::empty());
        rt
    }
}


/// The values of a vector of values.
pub open spec fn values_view(v: Seq<Value>) -> Seq<SValue> {
    Seq::new(v.len(), |i: int| v[i]@)
}

/// The name `main`.
fn main_string() -> (s: String)
    ensures
        s@ == main_name(),
{
    let s = String::from_str("main");
    proof {
        reveal_strlit("main");
        assert(s@ =~= main_name());
    }
    s
}

/// The arguments of a call with children `c`.
fn call_arguments(c: &Vec<Node>) -> (a: &Vec<Node>)
    ensures
        nodes_view(a@) == call_args(nodes_view(c@)),
{
    if c.len() > 0 {
        match &c[0] {
            Node::FunctionArguments { children } => children,
            _ => c,
        }
    } else {
        c
    }
}

/// Both values are strings, both numbers, or both booleans.
fn same_kind_values(a: &Value, b: &Value) -> (r: bool)
    ensures
        r == same_kind(a@, b@),
{
    match (a, b) {
        (Value::String(..), Value::String(..)) => true,
        (Value::Number(..), Value::Number(..)) => true,
        (Value::Bool(..), Value::Bool(..)) => true,
        _ => false,
    }
}

proof fn lemma_power_none(l: i32, k: int, n: int)
    requires
        k <= n,
        power(l, k) is None,
    ensures
        power(l, n) is None,
    decreases n - k,
{
    if k < n {
        lemma_power_none(l, k, n - 1);
    }
}

proof fn lemma_i32_product(a: i32, b: i32)
    ensures
        i64::MIN <= a * b <= i64::MAX,
{
    assert(-0x8000_0000 <= a <= 0x7fff_ffff && -0x8000_0000 <= b <= 0x7fff_ffff ==> -0x4000_0000_0000_0000
        <= a * b <= 0x4000_0000_0000_0000) by (nonlinear_arith);
}

/// `l` raised to `r` by repeated multiplication, or `None` on overflow.
fn power_of(l: i32, r: i32) -> (o: Option<i32>)
    ensures
        o == power(l, r as int),
{
    let mut result: i32 = 1;
    let mut i: i32 = 0;
    while i < r
        invariant
            0 <= i,
            i <= r || r <= 0,
            r <= 0 ==> i == 0,
            power(l, i as int) == Some(result),
        decreases r - i,
    {
        proof {
            lemma_i32_product(result, l);
        }
        let prod: i64 = result as i64 * l as i64;
        if prod < i32::MIN as i64 || prod > i32::MAX as i64 {
            proof {
                lemma_power_none(l, i + 1, r as int);
            }
            return None;
        }
        result = prod as i32;
        i = i + 1;
    }
    Some(result)
}

/// The operator `name` applied to two numbers.
fn apply_operator(name: &String, l: i32, r: i32) -> (o: Option<Result<Value, RuntimeError>>)
    ensures
        matches_outcome(o, arith(name@, l, r)),
{
    let single_char = name.as_str().unicode_len() == 1;
    let op = if single_char {
        name.as_str().get_char(0)
    } else {
        'x'
    };
    proof {
        if single_char {
            assert(name@ =~= seq![op]);
        }
        assert(seq!['+'].len() == 1 && seq!['+'][0] == '+');
    }
    if single_char && op == '+' {
        let v = l as i64 + r as i64;
        if v < i32::MIN as i64 || v > i32::MAX as i64 {
            None
        } else {
            Some(Ok(Value::Number(v as i32)))
        }
    } else if single_char && op == '-' {
        let v = l as i64 - r as i64;
        if v < i32::MIN as i64 || v > i32::MAX as i64 {
            None
        } else {
            Some(Ok(Value::Number(v as i32)))
        }
    } else if single_char && op == '*' {
        proof {
            lemma_i32_product(l, r);
        }
        let v = l as i64 * r as i64;
        if v < i32::MIN as i64 || v > i32::MAX as i64 {
            None
        } else {
            Some(Ok(Value::Number(v as i32)))
        }
    } else if single_char && op == '/' {
        match l.checked_div(r) {
            Some(q) => Some(Ok(Value::Number(q))),
            None => None,
        }
    } else if single_char && op == '^' {
        match power_of(l, r) {
            Some(x) => Some(Ok(Value::Number(x))),
            None => None,
        }
    } else {
        Some(Err(RuntimeError::UndefinedOperator))
    }
}

impl Runtime {
    proof fn lemma_view_push(&self, frame: Bindings<Value>, new: Runtime)
        requires
            new.functions == self.functions,
            new.stack@ == self.stack@.push(frame),
        ensures
            new@ == crate::semantics::push_frame(self@, frame@),
    {
        assert(new@.stack =~= self@.stack.push(frame@));
    }

    proof fn lemma_view_pop(&self, new: Runtime)
        requires
            new.functions == self.functions,
            self.stack@.len() > 0 ==> new.stack@ == self.stack@.drop_last(),
            self.stack@.len() == 0 ==> new.stack@ == self.stack@,
        ensures
            new@ == crate::semantics::pop_frame(self@),
    {
        assert(new@.stack =~= crate::semantics::pop_frame(self@).stack);
    }

    /// Evaluates `node`, with at most `fuel` nested evaluations.
    fn run_fuel(&mut self, node: &Node, fuel: u64) -> (r: Step)
        requires
            old(self).wf(),
        ensures
            final(self).wf(),
            step_matches(r, eval(old(self)@, node@, fuel as nat).1),
            r is Done ==> final(self)@ == eval(old(self)@, node@, fuel as nat).0,
        decreases fuel, 3nat, 0int,
    {
        if fuel == 0 {
            return Step::OutOfFuel;
        }
        let f: u64 = fuel - 1;
        match node {
            Node::Program { children } => self.run_program(children, fuel),
            Node::MathExpression { name, children } => self.run_math(name, children, fuel),
            Node::FunctionCall { name, children } => self.run_call(name, children, fuel),
            Node::FunctionDefine { children } => {
                if children.len() == 0 {
                    return Step::Stopped;
                }
                match &children[0] {
                    Node::Identifier { value } => {
                        let body = copy_nodes_from(children, 1);
                        proof {
                            lemma_deep_view_nodes(body);
                        }
                        self.functions.insert(value.clone(), body);
                        assert(self@ =~= crate::semantics::define_function(
                            old(self)@,
                            value@,
                            nodes_view(children@).skip(1),
                        ));
                    },
                    _ => {},
                }
                Step::Done(Ok(Value::Bool(true)))
            },
            Node::FunctionReturn { children } => {
                if children.len() == 0 {
                    return Step::Stopped;
                }
                self.run_fuel(&children[0], f)
            },
            Node::Identifier { value } => {
                let n = self.stack.len();
                if n == 0 {
                    return Step::Stopped;
                }
                assert(self.stack@[n - 1]@ == self@.stack.last());
                match self.stack[n - 1].get(value) {
                    Some(v) => Step::Done(Ok(v.duplicate())),
                    None => Step::Done(Err(RuntimeError::UndefinedVariable)),
                }
            },
            Node::Statement { children } => {
                if children.len() == 0 {
                    return Step::Stopped;
                }
                match &children[0] {
                    Node::VariableDefine { .. } => self.run_fuel(&children[0], f),
                    Node::FunctionReturn { .. } => self.run_fuel(&children[0], f),
                    _ => Step::Done(Err(RuntimeError::UnknownStatement)),
                }
            },
            Node::VariableDefine { children } => self.run_define(children, fuel),
            Node::Expression { children } => {
                if children.len() == 0 {
                    return Step::Stopped;
                }
                match &children[0] {
                    Node::MathExpression { .. } => self.run_fuel(&children[0], f),
                    Node::Number { .. } => self.run_fuel(&children[0], f),
                    Node::FunctionCall { .. } => self.run_fuel(&children[0], f),
                    Node::String { .. } => self.run_fuel(&children[0], f),
                    Node::Bool { .. } => self.run_fuel(&children[0], f),
                    Node::Identifier { .. } => self.run_fuel(&children[0], f),
                    Node::IfExpression { .. } => self.run_fuel(&children[0], f),
                    _ => Step::Done(Err(RuntimeError::UnknownExpression)),
                }
            },
            Node::IfExpression { children } => self.run_if(children, fuel),
            Node::IfClause { children } => self.run_conditional(children, fuel),
            Node::ElseIfClause { children } => self.run_conditional(children, fuel),
            Node::ElseClause { children } => self.run_block(
                children,
                0,
                Err(RuntimeError::NoResultFound),
                fuel,
            ),
            Node::Number { value } => Step::Done(Ok(Value::Number(*value))),
            Node::String { value } => Step::Done(Ok(Value::String(value.clone()))),
            Node::Bool { value } => Step::Done(Ok(Value::Bool(*value))),
            _ => Step::Done(Err(RuntimeError::UnhandledNode)),
        }
    }

    /// Evaluates `stmts[start..]` in turn; the result is that of the last.
    #[verifier::loop_isolation(false)]
    fn run_block(
        &mut self,
        stmts: &Vec<Node>,
        start: usize,
        last: Result<Value, RuntimeError>,
        fuel: u64,
    ) -> (r: Step)
        requires
            old(self).wf(),
        ensures
            final(self).wf(),
            step_matches(
                r,
                eval_block(old(self)@, nodes_view(stmts@), start as int, result_view(last), fuel as nat).1,
            ),
            r is Done ==> final(self)@ == eval_block(
                old(self)@,
                nodes_view(stmts@),
                start as int,
                result_view(last),
                fuel as nat,
            ).0,
        decreases fuel, 0nat, 0int,
    {
        let ghost goal = eval_block(
            self@,
            nodes_view(stmts@),
            start as int,
            result_view(last),
            fuel as nat,
        );
        if fuel == 0 {
            return Step::OutOfFuel;
        }
        let mut last = last;
        let mut i = start;
        while i < stmts.len()
            invariant
                self.wf(),
                fuel > 0,
                goal == eval_block(self@, nodes_view(stmts@), i as int, result_view(last), fuel as nat),
            decreases stmts@.len() - i,
        {
            match self.run_fuel(&stmts[i], fuel - 1) {
                Step::Stopped => {
                    return Step::Stopped;
                },
                Step::OutOfFuel => {
                    return Step::OutOfFuel;
                },
                Step::Done(res) => {
                    last = res;
                },
            }
            i = i + 1;
        }
        Step::Done(last)
    }

    /// The items of a program.
    #[verifier::loop_isolation(false)]
    fn run_program(&mut self, items: &Vec<Node>, fuel: u64) -> (r: Step)
        requires
            old(self).wf(),
        ensures
            final(self).wf(),
            step_matches(r, eval_program(old(self)@, nodes_view(items@), 0, fuel as nat).1),
            r is Done ==> final(self)@ == eval_program(
                old(self)@,
                nodes_view(items@),
                0,
                fuel as nat,
            ).0,
        decreases fuel, 0nat, 0int,
    {
        let ghost goal = eval_program(self@, nodes_view(items@), 0, fuel as nat);
        if fuel == 0 {
            return Step::OutOfFuel;
        }
        let mut i: usize = 0;
        while i < items.len()
            invariant
                self.wf(),
                fuel > 0,
                goal == eval_program(self@, nodes_view(items@), i as int, fuel as nat),
            decreases items@.len() - i,
        {
            match &items[i] {
                Node::FunctionDefine { .. } => {
                    match self.run_fuel(&items[i], fuel - 1) {
                        Step::Stopped => {
                            return Step::Stopped;
                        },
                        Step::OutOfFuel => {
                            return Step::OutOfFuel;
                        },
                        Step::Done(Err(e)) => {
                            return Step::Done(Err(e));
                        },
                        Step::Done(Ok(_)) => {},
                    }
                },
                Node::Expression { .. } => {
                    let body = single(Node::FunctionReturn { children: single(items[i].duplicate()) });
                    proof {
                        lemma_deep_view_nodes(body);
                    }
                    let ghost prev = self@;
                    self.functions.insert(main_string(), body);
                    assert(self@ == crate::semantics::define_function(
                        prev,
                        main_name(),
                        seq![SNode::FunctionReturn(seq![nodes_view(items@)[i as int]])],
                    ));
                },
                Node::Statement { .. } => {
                    let body = single(items[i].duplicate());
                    proof {
                        lemma_deep_view_nodes(body);
                    }
                    let ghost prev = self@;
                    self.functions.insert(main_string(), body);
                    assert(self@ == crate::semantics::define_function(
                        prev,
                        main_name(),
                        seq![nodes_view(items@)[i as int]],
                    ));
                },
                _ => {},
            }
            i = i + 1;
        }
        Step::Done(Ok(Value::Bool(true)))
    }

    /// `children[0] name children[1]`.
    fn run_math(&mut self, name: &String, children: &Vec<Node>, fuel: u64) -> (r: Step)
        requires
            old(self).wf(),
        ensures
            final(self).wf(),
            step_matches(r, eval_math(old(self)@, name@, nodes_view(children@), fuel as nat).1),
            r is Done ==> final(self)@ == eval_math(
                old(self)@,
                name@,
                nodes_view(children@),
                fuel as nat,
            ).0,
        decreases fuel, 2nat, 0int,
    {
        if fuel == 0 {
            return Step::OutOfFuel;
        }
        let f: u64 = fuel - 1;
        if children.len() == 0 {
            return Step::Stopped;
        }
        let r0 = match self.run_fuel(&children[0], f) {
            Step::Stopped => {
                return Step::Stopped;
            },
            Step::OutOfFuel => {
                return Step::OutOfFuel;
            },
            Step::Done(r) => r,
        };
        if children.len() < 2 {
            return Step::Stopped;
        }
        let r1 = match self.run_fuel(&children[1], f) {
            Step::Stopped => {
                return Step::Stopped;
            },
            Step::OutOfFuel => {
                return Step::OutOfFuel;
            },
            Step::Done(r) => r,
        };
        match (r0, r1) {
            (Ok(Value::Number(lhs)), Ok(Value::Number(rhs))) => match apply_operator(name, lhs, rhs) {
                Some(res) => Step::Done(res),
                None => Step::Stopped,
            },
            _ => Step::Done(Err(RuntimeError::CannotDoMath)),
        }
    }

    /// `let children[0] = children[1]`.
    fn run_define(&mut self, children: &Vec<Node>, fuel: u64) -> (r: Step)
        requires
            old(self).wf(),
        ensures
            final(self).wf(),
            step_matches(r, eval_define(old(self)@, nodes_view(children@), fuel as nat).1),
            r is Done ==> final(self)@ == eval_define(old(self)@, nodes_view(children@), fuel as nat).0,
        decreases fuel, 2nat, 0int,
    {
        if fuel == 0 {
            return Step::OutOfFuel;
        }
        if children.len() < 2 {
            return Step::Stopped;
        }
        let name: String = match &children[0] {
            Node::Identifier { value } => value.clone(),
            _ => String::new(),
        };
        match self.run_fuel(&children[1], fuel - 1) {
            Step::Stopped => Step::Stopped,
            Step::OutOfFuel => Step::OutOfFuel,
            Step::Done(Err(e)) => Step::Done(Err(e)),
            Step::Done(Ok(v)) => {
                let n = self.stack.len();
                if n == 0 {
                    return Step::Stopped;
                }
                let ghost prev = self@;
                let result = v.duplicate();
                let mut top = self.stack.pop().unwrap();
                top.insert(name, v);
                self.stack.push(top);
                assert(self@.stack =~= crate::semantics::set_variable(prev, name@, result@).stack);
                Step::Done(Ok(result))
            },
        }
    }

    /// An if or else-if clause: a condition and a body.
    fn run_conditional(&mut self, children: &Vec<Node>, fuel: u64) -> (r: Step)
        requires
            old(self).wf(),
        ensures
            final(self).wf(),
            step_matches(r, eval_conditional(old(self)@, nodes_view(children@), fuel as nat).1),
            r is Done ==> final(self)@ == eval_conditional(
                old(self)@,
                nodes_view(children@),
                fuel as nat,
            ).0,
        decreases fuel, 2nat, 0int,
    {
        if fuel == 0 {
            return Step::OutOfFuel;
        }
        if children.len() == 0 {
            return Step::Stopped;
        }
        match self.run_fuel(&children[0], fuel - 1) {
            Step::Stopped => Step::Stopped,
            Step::OutOfFuel => Step::OutOfFuel,
            Step::Done(Err(e)) => Step::Done(Err(e)),
            Step::Done(Ok(Value::Bool(true))) => self.run_block(
                children,
                1,
                Err(RuntimeError::NoResultFound),
                fuel,
            ),
            Step::Done(Ok(Value::Bool(false))) => Step::Done(Err(RuntimeError::ConditionNotMet)),
            Step::Done(Ok(_)) => Step::Done(Err(RuntimeError::UnexpectedConditional)),
        }
    }

    /// A call of the function `name`.
    #[verifier::loop_isolation(false)]
    fn run_call(&mut self, name: &String, children: &Vec<Node>, fuel: u64) -> (r: Step)
        requires
            old(self).wf(),
        ensures
            final(self).wf(),
            step_matches(r, eval_call(old(self)@, name@, nodes_view(children@), fuel as nat).1),
            r is Done ==> final(self)@ == eval_call(
                old(self)@,
                name@,
                nodes_view(children@),
                fuel as nat,
            ).0,
        decreases fuel, 2nat, 0int,
    {
        if fuel == 0 {
            return Step::OutOfFuel;
        }
        let f: u64 = fuel - 1;
        let in_args = call_arguments(children);
        let body = match self.functions.get(name) {
            None => {
                return Step::Done(Err(RuntimeError::UndefinedFunction));
            },
            Some(b) => {
                proof {
                    lemma_deep_view_nodes(*b);
                }
                copy_nodes(b)
            },
        };
        if body.len() == 0 {
            return Step::Stopped;
        }
        let ghost st0 = self@;
        let ghost bv = nodes_view(body@);
        let mut frame: Bindings<Value> = Bindings::new();
        match &body[0] {
            Node::FunctionArguments { children: params } => {
                let ghost goal = bind_args(
                    st0,
                    nodes_view(params@),
                    nodes_view(in_args@),
                    0,
                    Map::empty(),
                    fuel as nat,
                );
                let mut ix: usize = 0;
                while ix < params.len()
                    invariant
                        self.wf(),
                        frame.wf(),
                        fuel > 0,
                        f == fuel - 1,
                        goal == bind_args(
                            self@,
                            nodes_view(params@),
                            nodes_view(in_args@),
                            ix as int,
                            frame@,
                            fuel as nat,
                        ),
                    decreases params@.len() - ix,
                {
                    if ix >= in_args.len() {
                        return Step::Stopped;
                    }
                    match self.run_fuel(&in_args[ix], f) {
                        Step::Stopped => {
                            return Step::Stopped;
                        },
                        Step::OutOfFuel => {
                            return Step::OutOfFuel;
                        },
                        Step::Done(Err(e)) => {
                            return Step::Done(Err(e));
                        },
                        Step::Done(Ok(v)) => {
                            assert(nodes_view(params@)[ix as int] == params@[ix as int]@);
                            match &params[ix] {
                                Node::Expression { children: pc } => {
                                    if pc.len() == 0 {
                                        return Step::Stopped;
                                    }
                                    assert(nodes_view(pc@)[0] == pc@[0]@);
                                    match &pc[0] {
                                        Node::Identifier { value } => {
                                            frame.insert(value.clone(), v);
                                        },
                                        _ => {},
                                    }
                                },
                                _ => {},
                            }
                        },
                    }
                    ix = ix + 1;
                }
            },
            _ => {},
        }
        let ghost st1 = self@;
        let ghost prev = *self;
        self.stack.push(frame);
        proof {
            prev.lemma_view_push(frame, *self);
        }
        match self.run_block(&body, 0, Err(RuntimeError::UndefinedFunction), fuel) {
            Step::Stopped => Step::Stopped,
            Step::OutOfFuel => Step::OutOfFuel,
            Step::Done(res) => {
                let ghost before_pop = *self;
                self.stack.pop();
                proof {
                    before_pop.lemma_view_pop(*self);
                }
                Step::Done(res)
            },
        }
    }

    /// An if-expression: the clauses' return values must have one kind; then
    /// the first clause whose condition holds gives the value.
    #[verifier::loop_isolation(false)]
    fn run_if(&mut self, children: &Vec<Node>, fuel: u64) -> (r: Step)
        requires
            old(self).wf(),
        ensures
            final(self).wf(),
            step_matches(r, eval_if(old(self)@, nodes_view(children@), fuel as nat).1),
            r is Done ==> final(self)@ == eval_if(old(self)@, nodes_view(children@), fuel as nat).0,
        decreases fuel, 2nat, 0int,
    {
        if fuel == 0 {
            return Step::OutOfFuel;
        }
        let f: u64 = fuel - 1;
        let ghost cv = nodes_view(children@);
        let ghost types = clause_types(self@, cv, 0, seq![], fuel as nat);
        let mut vals: Vec<Value> = Vec::new();
        let mut i: usize = 0;
        assert(values_view(vals@) =~= seq![]);
        while i < children.len()
            invariant
                self.wf(),
                fuel > 0,
                f == fuel - 1,
                cv == nodes_view(children@),
                vals@.len() == i,
                i <= children@.len(),
                types == clause_types(self@, cv, i as int, values_view(vals@), fuel as nat),
            decreases children@.len() - i,
        {
            let (cc, start): (&Vec<Node>, usize) = match &children[i] {
                Node::IfClause { children: cc } => (cc, 1),
                Node::ElseIfClause { children: cc } => (cc, 1),
                Node::ElseClause { children: cc } => (cc, 0),
                _ => {
                    return Step::Done(Err(RuntimeError::InvalidIfExpression));
                },
            };
            assert(cv[i as int] == children@[i as int]@);
            if cc.len() == 0 {
                return Step::Stopped;
            }
            assert(nodes_view(cc@).last() == cc@[cc@.len() - 1]@);
            match self.run_fuel(&cc[cc.len() - 1], f) {
                Step::Stopped => {
                    return Step::Stopped;
                },
                Step::OutOfFuel => {
                    return Step::OutOfFuel;
                },
                Step::Done(Ok(v)) => {
                    proof {
                        assert(values_view(vals@.push(v)) =~= values_view(vals@).push(v@));
                    }
                    vals.push(v);
                },
                Step::Done(Err(_)) => {
                    let ghost prev = *self;
                    let empty: Bindings<Value> = Bindings::new();
                    self.stack.push(empty);
                    proof {
                        prev.lemma_view_push(empty, *self);
                    }
                    match self.run_block(cc, start, Err(RuntimeError::NoResultFound), fuel) {
                        Step::Stopped => {
                            return Step::Stopped;
                        },
                        Step::OutOfFuel => {
                            return Step::OutOfFuel;
                        },
                        Step::Done(Err(e)) => {
                            return Step::Done(Err(e));
                        },
                        Step::Done(Ok(v)) => {
                            proof {
                                assert(values_view(vals@.push(v)) =~= values_view(vals@).push(v@));
                            }
                            vals.push(v);
                            let ghost before_pop = *self;
                            self.stack.pop();
                            proof {
                                before_pop.lemma_view_pop(*self);
                            }
                        },
                    }
                },
            }
            i = i + 1;
        }
        if vals.len() == 0 {
            return Step::Stopped;
        }
        let mut j: usize = 1;
        while j < vals.len()
            invariant
                1 <= j <= vals@.len(),
                forall|k: int| 1 <= k < j ==> same_kind(vals@[0]@, #[trigger] vals@[k]@),
            decreases vals@.len() - j,
        {
            if !same_kind_values(&vals[0], &vals[j]) {
                proof {
                    assert(values_view(vals@)[j as int] == vals@[j as int]@);
                    assert(!consistent(values_view(vals@)));
                }
                return Step::Done(Err(RuntimeError::InconsistentType));
            }
            j = j + 1;
        }
        assert(consistent(values_view(vals@)));
        match self.run_fuel(&children[0], f) {
            Step::Stopped => Step::Stopped,
            Step::OutOfFuel => Step::OutOfFuel,
            Step::Done(Err(RuntimeError::ConditionNotMet)) => {
                let ghost goal = select_clause(self@, cv, 1, fuel as nat);
                let mut k: usize = 1;
                while k < children.len()
                    invariant
                        self.wf(),
                        fuel > 0,
                        f == fuel - 1,
                        cv == nodes_view(children@),
                        1 <= k <= children@.len(),
                        goal == select_clause(self@, cv, k as int, fuel as nat),
                    decreases children@.len() - k,
                {
                    match self.run_fuel(&children[k], f) {
                        Step::Stopped => {
                            return Step::Stopped;
                        },
                        Step::OutOfFuel => {
                            return Step::OutOfFuel;
                        },
                        Step::Done(Err(RuntimeError::ConditionNotMet)) => {},
                        Step::Done(res) => {
                            return Step::Done(res);
                        },
                    }
                    k = k + 1;
                }
                Step::Done(Err(RuntimeError::ConditionNotMet))
            },
            Step::Done(res) => Step::Done(res),
        }
    }
}

/// How an evaluation by the interpreter ends.
enum Step {
    Done(Result<Value, RuntimeError>),
    Stopped,
    OutOfFuel,
}

/// `r` is the outcome `o`.
spec fn step_matches(r: Step, o: Outcome) -> bool {
    match r {
        Step::Done(res) => o == Outcome::Done(result_view(res)),
        Step::Stopped => o is Abort,
        Step::OutOfFuel => o is OutOfFuel,
    }
}

/// `r` reports the result `o`: the same value, or the message of the error.
pub open spec fn reports(r: Result<Value, &'static str>, o: Result<SValue, RuntimeError>) -> bool {
    match r {
        Ok(v) => o == Ok::<SValue, RuntimeError>(v@),
        Err(m) => o matches Err(e) && m@ == e.spec_message(),
    }
}

/// `r` reports the outcome `o`: `None` for `Outcome::Abort`.
pub open spec fn reports_outcome(r: Option<Result<Value, &'static str>>, o: Outcome) -> bool {
    match r {
        None => o is Abort,
        Some(res) => o matches Outcome::Done(x) && reports(res, x),
    }
}

/// How a run with bounded fuel ends.
#[derive(Debug, PartialEq)]
pub enum RunEnd {
    /// The run gave a value, or an error given by its message.
    Finished(Result<Value, &'static str>),
    /// The run stops the program: an index out of range, an arithmetic
    /// overflow, a division by zero, or a variable read with no frame on the
    /// stack.
    Stopped,
    /// The fuel ran out: the run needed more nested evaluations.
    OutOfFuel,
}

/// `r` reports the outcome `o`.
pub open spec fn ends_as(r: RunEnd, o: Outcome) -> bool {
    match r {
        RunEnd::Finished(res) => o matches Outcome::Done(x) && reports(res, x),
        RunEnd::Stopped => o is Abort,
        RunEnd::OutOfFuel => o is OutOfFuel,
    }
}

/// The result with its error given by its message.
fn report(r: Result<Value, RuntimeError>) -> (out: Result<Value, &'static str>)
    ensures
        reports(out, result_view(r)),
{
    match r {
        Ok(v) => Ok(v),
        Err(e) => Err(e.message()),
    }
}

fn report_end(r: Step, Ghost(o): Ghost<Outcome>) -> (out: RunEnd)
    requires
        step_matches(r, o),
    ensures
        ends_as(out, o),
{
    match r {
        Step::Done(res) => RunEnd::Finished(report(res)),
        Step::Stopped => RunEnd::Stopped,
        Step::OutOfFuel => RunEnd::OutOfFuel,
    }
}

fn report_outcome(r: RunEnd, Ghost(o): Ghost<Outcome>) -> (out: Option<Result<Value, &'static str>>)
    requires
        ends_as(r, o),
        !(o is OutOfFuel),
    ensures
        reports_outcome(out, o),
{
    match r {
        RunEnd::Finished(res) => Some(res),
        _ => None,
    }
}

impl Runtime {
    /// Evaluates `node` with at most `fuel` nested evaluations, and says
    /// whether the fuel ran out.
    pub fn run_with_fuel(&mut self, node: &Node, fuel: u64) -> (r: RunEnd)
        requires
            old(self).wf(),
        ensures
            final(self).wf(),
            ends_as(r, eval(old(self)@, node@, fuel as nat).1),
            r is Finished ==> final(self)@ == eval(old(self)@, node@, fuel as nat).0,
            r is Finished ==> keeps(old(self)@, final(self)@),
    {
        proof {
            lemma_eval_keeps(self@, node@, fuel as nat);
        }
        let ghost o = eval(self@, node@, fuel as nat).1;
        let r = self.run_fuel(node, fuel);
        report_end(r, Ghost(o))
    }

    /// Evaluates `node`; returns `None` where evaluation stops the program
    /// (an index out of range, an arithmetic overflow, a division by zero,
    /// reading a variable with no frame on the stack).
    pub fn try_run(&mut self, node: &Node) -> (r: Option<Result<Value, &'static str>>)
        requires
            old(self).wf(),
            ends_within_max(old(self)@, node@),
        ensures
            final(self).wf(),
            reports_outcome(r, evaluation(old(self)@, node@).1),
            r is Some ==> final(self)@ == evaluation(old(self)@, node@).0,
            r is Some ==> keeps(old(self)@, final(self)@),
    {
        proof {
            lemma_evaluation_unique(self@, node@, max_fuel());
        }
        let ghost o = evaluation(self@, node@).1;
        let r = self.run_with_fuel(node, u64::MAX);
        report_outcome(r, Ghost(o))
    }

    /// Evaluates `node`: runs a program, defines a function, calls one,
    /// evaluates an expression or a statement.
    pub fn run(&mut self, node: &Node) -> (r: Result<Value, &'static str>)
        requires
            old(self).wf(),
            ends_within_max(old(self)@, node@),
            !(evaluation(old(self)@, node@).1 is Abort),
        ensures
            final(self).wf(),
            final(self)@ == evaluation(old(self)@, node@).0,
            evaluation(old(self)@, node@).1 matches Outcome::Done(o) && reports(r, o),
            keeps(old(self)@, final(self)@),
    {
        match self.try_run(node) {
            Some(r) => r,
            None => vstd::pervasive::unreached(),
        }
    }
}

/// Runs a program with at most `fuel` nested evaluations: evaluates its tree
/// in a new runtime, then calls `main`; says whether the fuel ran out.
pub fn start_interpreter_with_fuel(node: &Node, fuel: u64) -> (r: RunEnd)
    ensures
        ends_as(r, interpret(node@, fuel as nat)),
{
    let mut runtime = Runtime::new();
    let ghost o1 = eval(runtime@, node@, fuel as nat).1;
    let first = runtime.run_fuel(node, fuel);
    match first {
        Step::Done(_) => {},
        other => {
            return report_end(other, Ghost(o1));
        },
    }
    let no_args: Vec<Node> = Vec::new();
    assert(nodes_view(no_args@) =~= seq![]);
    let start_main = Node::FunctionCall { name: main_string(), children: no_args };
    assert(start_main@ == main_call());
    let ghost o2 = eval(runtime@, main_call(), fuel as nat).1;
    let r = runtime.run_fuel(&start_main, fuel);
    report_end(r, Ghost(o2))
}

/// Runs a program: evaluates its tree in a new runtime, then calls `main`;
/// returns `None` where evaluation stops the program.
pub fn try_start_interpreter(node: &Node) -> (r: Option<Result<Value, &'static str>>)
    requires
        program_ends_within_max(node@),
    ensures
        reports_outcome(r, program_outcome(node@)),
{
    proof {
        lemma_program_outcome_unique(node@, max_fuel());
    }
    let r = start_interpreter_with_fuel(node, u64::MAX);
    report_outcome(r, Ghost(program_outcome(node@)))
}

/// Runs a program: evaluates its tree in a new runtime, then calls `main`.
pub fn start_interpreter(node: &Node) -> (r: Result<Value, &'static str>)
    requires
        program_ends_within_max(node@),
        !(program_outcome(node@) is Abort),
    ensures
        program_outcome(node@) matches Outcome::Done(o) && reports(r, o),
{
    match try_start_interpreter(node) {
        Some(r) => r,
        None => vstd::pervasive::unreached(),
    }
}

} // verus!
