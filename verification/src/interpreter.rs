//! The execution engine: a tree-walking evaluator over the call stack.
//!
//! A name is read and written in the top record of the stack and nowhere
//! else. The body of a procedure therefore sees its parameters and what it
//! has assigned itself; a variable of an enclosing scope is unknown to it, and
//! reading one is an `UndefinedVariable` error although the analyzer accepts
//! the program. So is reading a declared variable before it is assigned. Data
//! reaches a procedure through its parameters, which are passed by value.
//!
//! The body that a call runs is the one that the analyzer has copied onto the
//! call, in which the calls are resolved in their turn. A call of a procedure
//! from inside its own body carries no body, since no body can hold a copy
//! of itself; it runs the body of the procedure as it is running. The engine
//! keeps the list of the running procedures for this. No more than
//! `CALL_DEPTH_LIMIT` calls can be under way at a time: the next one ends
//! the run with `CallDepthExceeded`.
//!
//! Integers have 32 bits. A sum, a difference or a product beyond their range
//! is clamped to it; a quotient or a negation beyond it is an error, as is a
//! division by zero.

use vstd::prelude::*;
use crate::ast::{
    clone_block, nodes_view, Block, BlockView, Compound, Node, NodeView, ProcedureCall,
    ProcedureCallView, Type,
    Var, VarView,
};
use crate::error::EvaluationError;
use crate::symbols::{
    ARType, ActivationRecord, ActivationRecordView, CallStack, ProcedureSymbol,
    ProcedureSymbolView, VarSymbolView,
};
use crate::text::{lowercase, to_lowercase};
use crate::tokens::{Real, TokenType, Value, ValueView};

verus! {

/// What walks a syntax tree node by node: the analyzer, the symbol table
/// builder and the execution engine. Each says for itself what it asks of a
/// tree and what a visit comes to.
pub trait NodeVisitor {
    /// What a visit gives back.
    type Output;

    /// Whether the visitor may be sent to the tree.
    spec fn accepts(&self, node: Node) -> bool;

    /// Whether a visit that began with the visitor `self` and the tree
    /// `node` may end with the visitor `after`, the tree `left` and the
    /// result `output`.
    spec fn visited(&self, node: Node, after: &Self, left: Node, output: Self::Output) -> bool;

    /// Visits the tree.
    fn visit(&mut self, node: &mut Node) -> (output: Self::Output)
        requires
            old(self).accepts(*old(node)),
        ensures
            old(self).visited(*old(node), final(self), *final(node), output),
    ;
}

/// The four operations on reals that the engine asks its caller for.
#[derive(Debug, PartialEq, Eq, Clone, Copy, Structural)]
pub enum RealOperator {
    Add,
    Subtract,
    Multiply,
    Divide,
}

/// Whether `arithmetic` accepts every operator with every pair of reals.
pub open spec fn total<A: Fn(RealOperator, Real, Real) -> Real>(arithmetic: A) -> bool {
    forall|operator: RealOperator, left: Real, right: Real|
        call_requires(arithmetic, (operator, left, right))
}

/// Whether `arithmetic` gives one result for one operator and pair of reals.
pub open spec fn functional<A: Fn(RealOperator, Real, Real) -> Real>(arithmetic: A) -> bool {
    forall|operator: RealOperator, left: Real, right: Real, first: Real, second: Real|
        call_ensures(arithmetic, (operator, left, right), first) && call_ensures(
            arithmetic,
            (operator, left, right),
            second,
        ) ==> first == second
}

/// The function that `arithmetic` computes: what it returns for an operator
/// and a pair of reals.
pub open spec fn function_of<A: Fn(RealOperator, Real, Real) -> Real>(arithmetic: A) -> spec_fn(
    RealOperator,
    Real,
    Real,
) -> Real {
    |operator: RealOperator, left: Real, right: Real|
        choose|result: Real| call_ensures(arithmetic, (operator, left, right), result)
}

/// The nearest 32-bit integer to `n`.
pub open spec fn clamp(n: int) -> i32 {
    if n < i32::MIN {
        i32::MIN
    } else if n > i32::MAX {
        i32::MAX
    } else {
        n as i32
    }
}

/// The quotient of `left` by `right` rounded toward zero.
pub open spec fn truncated_quotient(left: int, right: int) -> int
    recommends
        right != 0,
{
    if left >= 0 && right > 0 {
        left / right
    } else if left < 0 && right > 0 {
        -((-left) / right)
    } else if left >= 0 {
        -(left / (-right))
    } else {
        (-left) / (-right)
    }
}

/// The result of a binary operator on two integers. Sums, differences and
/// products beyond the 32-bit range are clamped to it.
pub open spec fn integer_operation(operator: TokenType, left: i32, right: i32) -> Result<
    ValueView,
    EvaluationError,
> {
    match operator {
        TokenType::Plus => Ok(ValueView::Integer(clamp(left + right))),
        TokenType::Minus => Ok(ValueView::Integer(clamp(left - right))),
        TokenType::Mul => Ok(ValueView::Integer(clamp(left * right))),
        TokenType::IntegerDiv => if right == 0 {
            Err(EvaluationError::DivisionByZero)
        } else if left == i32::MIN && right == -1 {
            Err(EvaluationError::Overflow)
        } else {
            Ok(ValueView::Integer(truncated_quotient(left as int, right as int) as i32))
        },
        _ => Err(EvaluationError::InvalidOperator),
    }
}

/// The operation on reals that a token stands for.
pub open spec fn real_operator(operator: TokenType) -> Option<RealOperator> {
    match operator {
        TokenType::Plus => Some(RealOperator::Add),
        TokenType::Minus => Some(RealOperator::Subtract),
        TokenType::Mul => Some(RealOperator::Multiply),
        TokenType::FloatDiv => Some(RealOperator::Divide),
        _ => None,
    }
}

/// The result of a binary operator on two values: integer arithmetic on two
/// integers, the caller's arithmetic `reals` on two reals, and an error otherwise.
pub open spec fn binary_operation(
    reals: spec_fn(RealOperator, Real, Real) -> Real,
    operator: TokenType,
    left: ValueView,
    right: ValueView,
) -> Result<ValueView, EvaluationError> {
    match (left, right) {
        (ValueView::Integer(l), ValueView::Integer(r)) => integer_operation(operator, l, r),
        (ValueView::Float(l), ValueView::Float(r)) => match real_operator(operator) {
            Some(op) => Ok(ValueView::Float(reals(op, l, r))),
            None => Err(EvaluationError::InvalidOperator),
        },
        _ => Err(EvaluationError::KindMismatch),
    }
}

/// The result of a unary operator: `+` keeps a number, `-` negates it.
pub open spec fn unary_operation(operator: TokenType, operand: ValueView) -> Result<
    ValueView,
    EvaluationError,
> {
    match operand {
        ValueView::Float(x) => match operator {
            TokenType::Plus => Ok(ValueView::Float(x)),
            TokenType::Minus => Ok(ValueView::Float(x.negation())),
            _ => Err(EvaluationError::InvalidOperator),
        },
        ValueView::Integer(n) => match operator {
            TokenType::Plus => Ok(ValueView::Integer(n)),
            TokenType::Minus => if n == i32::MIN {
                Err(EvaluationError::Overflow)
            } else {
                Ok(ValueView::Integer((-n) as i32))
            },
            _ => Err(EvaluationError::InvalidOperator),
        },
        _ => Err(EvaluationError::KindMismatch),
    }
}

/// Whether a value is an integer or a real.
pub open spec fn is_number(value: ValueView) -> bool {
    value is Integer || value is Float
}

/// What the evaluation of a node gives: its value and the call stack it leaves.
pub struct Evaluation {
    pub value: ValueView,
    pub stack: Seq<ActivationRecordView>,
}

/// How an evaluation fails: the error, and the call stack as the error found
/// it. When a run is abandoned, the records that are on the stack stay there.
pub struct Failure {
    pub error: EvaluationError,
    pub stack: Seq<ActivationRecordView>,
}

/// The stack with `key` bound to `value` in its top record.
pub open spec fn assign(stack: Seq<ActivationRecordView>, key: Seq<char>, value: ValueView) -> Seq<
    ActivationRecordView,
>
    recommends
        stack.len() > 0,
{
    stack.update(stack.len() - 1, stack.last().set(key, value))
}

/// The stack without its top record, if it has one.
pub open spec fn popped(stack: Seq<ActivationRecordView>) -> Seq<ActivationRecordView> {
    if stack.len() > 0 {
        stack.drop_last()
    } else {
        stack
    }
}

/// The record that a program starts with.
pub open spec fn program_record(name: Seq<char>) -> ActivationRecordView {
    ActivationRecordView {
        name,
        type_: ARType::Program,
        nesting_level: 1,
        members: Map::empty(),
    }
}

/// The record that a call of a procedure starts with.
pub open spec fn procedure_record(name: Seq<char>) -> ActivationRecordView {
    ActivationRecordView {
        name,
        type_: ARType::Procedure,
        nesting_level: 2,
        members: Map::empty(),
    }
}

/// How many calls may be under way at a time. It is a limit of the machine:
/// a call beyond it ends the run with `CallDepthExceeded`.
pub const CALL_DEPTH_LIMIT: usize = 200;

/// The calls that are under way: the procedures that are running, the one
/// that was called last at the end, and the number of calls that may still
/// be started.
pub struct Calls {
    pub active: Seq<ProcedureSymbolView>,
    pub limit: nat,
}

/// The state of the calls before a run: nothing is running, and the full
/// depth is left.
pub open spec fn no_calls() -> Calls {
    Calls { active: Seq::empty(), limit: CALL_DEPTH_LIMIT as nat }
}

/// Whether two symbols stand for the same procedure where a call looks for
/// its callee: the name and the level of the procedure's scope agree. A call
/// without a body stands inside its callee, so that of the running
/// procedures with that name and level the one called last is the callee.
pub open spec fn same_procedure(one: ProcedureSymbolView, other: ProcedureSymbolView) -> bool {
    one.name == other.name && one.scope_level == other.scope_level
}

/// The running procedure that `procedure` stands for, as it was called last.
pub open spec fn running(active: Seq<ProcedureSymbolView>, procedure: ProcedureSymbolView) -> Option<
    ProcedureSymbolView,
>
    decreases active.len(),
{
    if active.len() == 0 {
        None
    } else if same_procedure(active.last(), procedure) {
        Some(active.last())
    } else {
        running(active.drop_last(), procedure)
    }
}

/// The symbol whose body a call runs: the one that the call was resolved to
/// if it holds a body, and else the running procedure that it stands for.
/// A symbol is without a body where a procedure is called from inside its
/// own body; the procedure is then running.
pub open spec fn callee(active: Seq<ProcedureSymbolView>, procedure: ProcedureSymbolView) -> Option<
    ProcedureSymbolView,
> {
    if procedure.block_ast is Some {
        Some(procedure)
    } else {
        running(active, procedure)
    }
}

/// The meaning of a node: the value it evaluates to and the stack it leaves
/// when evaluated on `stack`, or the error that ends the run.
pub open spec fn run(
    reals: spec_fn(RealOperator, Real, Real) -> Real,
    calls: Calls,
    node: NodeView,
    stack: Seq<ActivationRecordView>,
) -> Result<Evaluation, Failure>
    decreases calls.limit, node,
{
    match node {
        NodeView::Num(value) => Ok(Evaluation { value, stack }),
        NodeView::BinOp(left, operator, right) => match run(reals, calls, *left, stack) {
            Err(error) => Err(error),
            Ok(l) => if !is_number(l.value) {
                Err(Failure { error: EvaluationError::KindMismatch, stack: l.stack })
            } else {
                match run(reals, calls, *right, l.stack) {
                    Err(failure) => Err(failure),
                    Ok(r) => match binary_operation(reals, operator.type_, l.value, r.value) {
                        Err(error) => Err(Failure { error, stack: r.stack }),
                        Ok(value) => Ok(Evaluation { value, stack: r.stack }),
                    },
                }
            },
        },
        NodeView::UnaryOp(operator, operand) => match run(reals, calls, *operand, stack) {
            Err(error) => Err(error),
            Ok(o) => match unary_operation(operator.type_, o.value) {
                Err(error) => Err(Failure { error, stack: o.stack }),
                Ok(value) => Ok(Evaluation { value, stack: o.stack }),
            },
        },
        NodeView::Compound(compound) => match run_all(reals, calls, compound.children, stack) {
            Err(error) => Err(error),
            Ok(after) => Ok(Evaluation { value: ValueView::Absent, stack: after }),
        },
        NodeView::Assign(target, _, right) => match run(reals, calls, *right, stack) {
            Err(error) => Err(error),
            Ok(r) => if r.stack.len() == 0 {
                Err(Failure { error: EvaluationError::NoActiveFrame, stack: r.stack })
            } else {
                match target.value {
                    ValueView::String(name) => Ok(
                        Evaluation {
                            value: ValueView::Absent,
                            stack: assign(r.stack, lowercase(name), r.value),
                        },
                    ),
                    _ => Err(Failure { error: EvaluationError::NotAnIdentifier, stack: r.stack }),
                }
            },
        },
        NodeView::Var(var) => read(var, stack),
        NodeView::Program(name, block) => match run_block(
            reals,
            calls,
            *block,
            stack.push(program_record(name)),
        ) {
            Err(error) => Err(error),
            Ok(after) => Ok(
                Evaluation {
                    value: ValueView::Absent,
                    stack: if after.len() > 0 && after.last().nesting_level != 1 {
                        after.drop_last()
                    } else {
                        after
                    },
                },
            ),
        },
        NodeView::VarDecl(_, _) => Ok(Evaluation { value: ValueView::Absent, stack }),
        NodeView::ProcedureDecl(_, _, _) => Ok(Evaluation { value: ValueView::Absent, stack }),
        NodeView::ProcedureCall(call) => run_call(reals, calls, call, stack),
        NodeView::NoOp => Ok(Evaluation { value: ValueView::Absent, stack }),
    }
}

/// The value of a variable: what the top record binds its name to.
pub open spec fn read(var: VarView, stack: Seq<ActivationRecordView>) -> Result<
    Evaluation,
    Failure,
> {
    if stack.len() == 0 {
        Err(Failure { error: EvaluationError::NoActiveFrame, stack })
    } else {
        match var.value {
            ValueView::String(name) => match stack.last().get(lowercase(name)) {
                Some(value) => Ok(Evaluation { value, stack }),
                None => Err(Failure { error: EvaluationError::UndefinedVariable, stack }),
            },
            _ => Err(Failure { error: EvaluationError::NotAnIdentifier, stack }),
        }
    }
}

/// The stack that the nodes leave when they run one after the other.
pub open spec fn run_all(
    reals: spec_fn(RealOperator, Real, Real) -> Real,
    calls: Calls,
    nodes: Seq<NodeView>,
    stack: Seq<ActivationRecordView>,
) -> Result<Seq<ActivationRecordView>, Failure>
    decreases calls.limit, nodes,
{
    if nodes.len() == 0 {
        Ok(stack)
    } else {
        match run(reals, calls, nodes.first(), stack) {
            Err(error) => Err(error),
            Ok(first) => run_all(reals, calls, nodes.drop_first(), first.stack),
        }
    }
}

/// The stack that a block leaves: its declarations run, then its statements.
pub open spec fn run_block(
    reals: spec_fn(RealOperator, Real, Real) -> Real,
    calls: Calls,
    block: BlockView,
    stack: Seq<ActivationRecordView>,
) -> Result<Seq<ActivationRecordView>, Failure>
    decreases calls.limit, block,
{
    match run_all(reals, calls, block.declarations, stack) {
        Err(error) => Err(error),
        Ok(declared) => match run(reals, calls, block.compound_statement, declared) {
            Err(error) => Err(error),
            Ok(done) => Ok(done.stack),
        },
    }
}

/// The frame of a call once its arguments are bound, and the stack that
/// evaluating them leaves. Each argument is evaluated on the caller's stack
/// and bound to the parameter at the same position, by the parameter's name
/// in lower case; what either list has beyond the other is ignored.
pub open spec fn bind_arguments(
    reals: spec_fn(RealOperator, Real, Real) -> Real,
    calls: Calls,
    params: Seq<VarSymbolView>,
    arguments: Seq<NodeView>,
    frame: ActivationRecordView,
    stack: Seq<ActivationRecordView>,
) -> Result<(ActivationRecordView, Seq<ActivationRecordView>), Failure>
    decreases calls.limit, arguments,
{
    if params.len() == 0 || arguments.len() == 0 {
        Ok((frame, stack))
    } else {
        match run(reals, calls, arguments.first(), stack) {
            Err(error) => Err(error),
            Ok(argument) => bind_arguments(
                reals,
                calls,
                params.drop_first(),
                arguments.drop_first(),
                frame.set(lowercase(params.first().name), argument.value),
                argument.stack,
            ),
        }
    }
}

/// The meaning of a call: the arguments are bound in a new record, the
/// record is pushed, the body of the callee runs, and the record is dropped.
/// While the body runs, the callee counts among the running procedures. The
/// call fails if it was not resolved, if no body is found for it, or if as
/// many calls are under way as there may be.
pub open spec fn run_call(
    reals: spec_fn(RealOperator, Real, Real) -> Real,
    calls: Calls,
    call: ProcedureCallView,
    stack: Seq<ActivationRecordView>,
) -> Result<Evaluation, Failure>
    decreases calls.limit, call,
{
    match call.proc_symbol {
        None => Err(Failure { error: EvaluationError::UnresolvedCall, stack }),
        Some(procedure) => match bind_arguments(
            reals,
            calls,
            procedure.formal_params,
            call.actual_params,
            procedure_record(call.proc_name),
            stack,
        ) {
            Err(error) => Err(error),
            Ok((frame, caller)) => {
                let started = caller.push(frame);
                match body_to_run(calls.active, procedure) {
                    None => Err(Failure { error: EvaluationError::UnresolvedCall, stack: started }),
                    Some((body, entered)) => if calls.limit == 0 {
                        Err(Failure { error: EvaluationError::CallDepthExceeded, stack: started })
                    } else {
                        match run_block(
                            reals,
                            Calls {
                                active: calls.active.push(entered),
                                limit: (calls.limit - 1) as nat,
                            },
                            body,
                            started,
                        ) {
                            Err(error) => Err(error),
                            Ok(after) => Ok(
                                Evaluation { value: ValueView::Absent, stack: popped(after) },
                            ),
                        }
                    },
                }
            },
        },
    }
}

/// The body that a call of `procedure` runs, with the symbol that holds it.
pub open spec fn body_to_run(
    active: Seq<ProcedureSymbolView>,
    procedure: ProcedureSymbolView,
) -> Option<(BlockView, ProcedureSymbolView)> {
    match callee(active, procedure) {
        Some(entered) => match entered.block_ast {
            Some(body) => Some((*body, entered)),
            None => None,
        },
        None => None,
    }
}

/// A finished run of statements as an evaluation: statements have no value.
pub open spec fn completed(outcome: Result<Seq<ActivationRecordView>, Failure>) -> Result<
    Evaluation,
    Failure,
> {
    match outcome {
        Ok(stack) => Ok(Evaluation { value: ValueView::Absent, stack }),
        Err(error) => Err(error),
    }
}

/// Whether a computed value or error is the one that the meaning `expected`
/// gives.
pub open spec fn matches_value(
    result: Result<Value, EvaluationError>,
    expected: Result<ValueView, EvaluationError>,
) -> bool {
    match expected {
        Ok(value) => result matches Ok(computed) && computed@ == value,
        Err(error) => result matches Err(raised) && raised == error,
    }
}

/// The nearest 32-bit integer to `n`.
pub fn clamp_to_i32(n: i64) -> (clamped: i32)
    ensures
        clamped == clamp(n as int),
{
    if n < -0x8000_0000 {
        i32::MIN
    } else if n > 0x7fff_ffff {
        i32::MAX
    } else {
        n as i32
    }
}

/// Applies a binary operator to two integers.
pub fn integer_arithmetic(operator: TokenType, left: i32, right: i32) -> (result: Result<
    Value,
    EvaluationError,
>)
    ensures
        matches_value(result, integer_operation(operator, left, right)),
{
    let l: i64 = left as i64;
    let r: i64 = right as i64;
    match operator {
        TokenType::Plus => Ok(Value::Integer(clamp_to_i32(l + r))),
        TokenType::Minus => Ok(Value::Integer(clamp_to_i32(l - r))),
        TokenType::Mul => {
            assert(-0x4000_0000_0000_0000 <= l * r <= 0x4000_0000_0000_0000) by (nonlinear_arith)
                requires
                    -0x8000_0000 <= l <= 0x7fff_ffff,
                    -0x8000_0000 <= r <= 0x7fff_ffff,
            ;
            Ok(Value::Integer(clamp_to_i32(l * r)))
        },
        TokenType::IntegerDiv => {
            if right == 0 {
                Err(EvaluationError::DivisionByZero)
            } else if left == i32::MIN && right == -1 {
                Err(EvaluationError::Overflow)
            } else {
                let a: u64 = if l < 0 {
                    (-l) as u64
                } else {
                    l as u64
                };
                let b: u64 = if r < 0 {
                    (-r) as u64
                } else {
                    r as u64
                };
                assert(0 <= (a as int) / (b as int) <= a && (b >= 2 ==> 2 * ((a as int) / (
                b as int)) <= a)) by (nonlinear_arith)
                    requires
                        0 <= a,
                        1 <= b,
                ;
                let q: i64 = (a / b) as i64;
                if (l < 0) != (r < 0) {
                    Ok(Value::Integer((-q) as i32))
                } else {
                    Ok(Value::Integer(q as i32))
                }
            }
        },
        _ => Err(EvaluationError::InvalidOperator),
    }
}

/// Applies a unary operator to a value.
pub fn unary_arithmetic(operator: TokenType, operand: &Value) -> (result: Result<
    Value,
    EvaluationError,
>)
    ensures
        matches_value(result, unary_operation(operator, operand@)),
{
    match operand {
        Value::Float(x) => match operator {
            TokenType::Plus => Ok(Value::Float(*x)),
            TokenType::Minus => Ok(Value::Float(x.negated())),
            _ => Err(EvaluationError::InvalidOperator),
        },
        Value::Integer(n) => match operator {
            TokenType::Plus => Ok(Value::Integer(*n)),
            TokenType::Minus => if *n == i32::MIN {
                Err(EvaluationError::Overflow)
            } else {
                Ok(Value::Integer(-*n))
            },
            _ => Err(EvaluationError::InvalidOperator),
        },
        _ => Err(EvaluationError::KindMismatch),
    }
}

/// The execution engine. It owns the call stack and the list of the running
/// procedures, and is given the arithmetic on reals, which must accept every
/// input and be a function of its inputs.
pub struct Interpreter<A> {
    call_stack: CallStack,
    arithmetic: A,
    active: Vec<ProcedureSymbol>,
    limit: usize,
}

impl<A: Fn(RealOperator, Real, Real) -> Real> Interpreter<A> {
    /// The arithmetic on reals that the engine was made with.
    pub closed spec fn arithmetic(&self) -> A {
        self.arithmetic
    }

    /// The function on reals that the engine's arithmetic computes.
    pub open spec fn reals(&self) -> spec_fn(RealOperator, Real, Real) -> Real {
        function_of(self.arithmetic())
    }

    /// The call stack as it stands.
    pub closed spec fn stack(&self) -> Seq<ActivationRecordView> {
        self.call_stack@
    }

    /// The calls that are under way.
    pub closed spec fn calls(&self) -> Calls {
        Calls {
            active: self.active@.map_values(|procedure: ProcedureSymbol| procedure@),
            limit: self.limit as nat,
        }
    }

    /// Whether the engine's arithmetic is usable.
    pub open spec fn wf(&self) -> bool {
        total(self.arithmetic()) && functional(self.arithmetic())
    }

    /// Whether the step from `self` to `after` with `result` is the one that
    /// the meaning `expected` describes: the value or the error is the one
    /// given, and so is the stack, which after an error is left as the error
    /// found it.
    pub open spec fn accords(
        &self,
        after: Self,
        result: Result<Value, EvaluationError>,
        expected: Result<Evaluation, Failure>,
    ) -> bool {
        &&& after.arithmetic() == self.arithmetic()
        &&& match expected {
            Ok(evaluation) => result matches Ok(value) && value@ == evaluation.value
                && after.stack() == evaluation.stack && after.calls() == self.calls(),
            Err(failure) => result matches Err(raised) && raised == failure.error
                && after.stack() == failure.stack,
        }
    }

    /// An engine with an empty call stack.
    pub fn new(arithmetic: A) -> (interpreter: Self)
        requires
            total(arithmetic),
            functional(arithmetic),
        ensures
            interpreter.wf(),
            interpreter.arithmetic() == arithmetic,
            interpreter.stack() == Seq::<ActivationRecordView>::empty(),
            interpreter.calls() == no_calls(),
    {
        let interpreter = Interpreter {
            call_stack: CallStack::new(),
            arithmetic,
            active: Vec::new(),
            limit: CALL_DEPTH_LIMIT,
        };
        assert(interpreter.calls().active =~= Seq::<ProcedureSymbolView>::empty());
        interpreter
    }

    /// The call stack, for inspection after a run.
    pub fn call_stack(&self) -> (stack: &CallStack)
        ensures
            stack@ == self.stack(),
    {
        &self.call_stack
    }

    /// Ends the engine's work and hands out the call stack.
    pub fn into_call_stack(self) -> (stack: CallStack)
        ensures
            stack@ == self.stack(),
    {
        self.call_stack
    }

    /// Applies a binary operator to two values.
    pub fn binary_arithmetic(&self, operator: TokenType, left: &Value, right: &Value) -> (result:
        Result<Value, EvaluationError>)
        requires
            self.wf(),
        ensures
            matches_value(result, binary_operation(self.reals(), operator, left@, right@)),
    {
        match (left, right) {
            (Value::Integer(l), Value::Integer(r)) => integer_arithmetic(operator, *l, *r),
            (Value::Float(l), Value::Float(r)) => {
                let op = match operator {
                    TokenType::Plus => RealOperator::Add,
                    TokenType::Minus => RealOperator::Subtract,
                    TokenType::Mul => RealOperator::Multiply,
                    TokenType::FloatDiv => RealOperator::Divide,
                    _ => {
                        return Err(EvaluationError::InvalidOperator);
                    },
                };
                let value = (self.arithmetic)(op, *l, *r);
                Ok(Value::Float(value))
            },
            _ => Err(EvaluationError::KindMismatch),
        }
    }

    /// Evaluates a node on the call stack.
    pub fn visit(&mut self, node: &Node) -> (result: Result<Value, EvaluationError>)
        requires
            old(self).wf(),
        ensures
            old(self).accords(
                *final(self),
                result,
                run(old(self).reals(), old(self).calls(), node@, old(self).stack()),
            ),
        decreases old(self).calls().limit, node, 1nat,
    {
        match node {
            Node::BinOp(..) => self.visit_bin_op(node),
            Node::UnaryOp(..) => self.visit_unary_op(node),
            Node::Num(..) => self.visit_num(node),
            Node::Compound(compound) => self.visit_compound(compound),
            Node::Assign(..) => self.visit_assign(node),
            Node::Var(var) => self.visit_var(var),
            Node::Program(..) => self.visit_program(node),
            Node::VarDecl(..) => self.visit_var_decl(node),
            Node::ProcedureDecl(..) => self.visit_procedure_decl(node),
            Node::ProcedureCall(call) => self.visit_procedure_call(call),
            Node::NoOp => Ok(Value::Absent),
        }
    }

    /// A literal is its own value.
    pub fn visit_num(&mut self, num: &Node) -> (result: Result<Value, EvaluationError>)
        requires
            old(self).wf(),
            num is Num,
        ensures
            old(self).accords(
                *final(self),
                result,
                run(old(self).reals(), old(self).calls(), num@, old(self).stack()),
            ),
    {
        match num {
            Node::Num(value) => Ok(value.clone()),
            _ => Ok(Value::Absent),
        }
    }

    /// Both operands are evaluated, the left one first, and the operator is
    /// applied to their values.
    pub fn visit_bin_op(&mut self, bin_op: &Node) -> (result: Result<Value, EvaluationError>)
        requires
            old(self).wf(),
            bin_op is BinOp,
        ensures
            old(self).accords(
                *final(self),
                result,
                run(old(self).reals(), old(self).calls(), bin_op@, old(self).stack()),
            ),
        decreases old(self).calls().limit, bin_op, 0nat,
    {
        match bin_op {
            Node::BinOp(left, op, right) => {
                let l = match self.visit(left) {
                    Ok(value) => value,
                    Err(error) => {
                        return Err(error);
                    },
                };
                match l {
                    Value::Integer(_) | Value::Float(_) => {},
                    _ => {
                        return Err(EvaluationError::KindMismatch);
                    },
                }
                let r = match self.visit(right) {
                    Ok(value) => value,
                    Err(error) => {
                        return Err(error);
                    },
                };
                self.binary_arithmetic(op.type_, &l, &r)
            },
            _ => Ok(Value::Absent),
        }
    }

    /// The operand is evaluated and the operator applied to its value.
    pub fn visit_unary_op(&mut self, unary_op: &Node) -> (result: Result<Value, EvaluationError>)
        requires
            old(self).wf(),
            unary_op is UnaryOp,
        ensures
            old(self).accords(
                *final(self),
                result,
                run(old(self).reals(), old(self).calls(), unary_op@, old(self).stack()),
            ),
        decreases old(self).calls().limit, unary_op, 0nat,
    {
        match unary_op {
            Node::UnaryOp(op, operand) => {
                match self.visit(operand) {
                    Ok(value) => unary_arithmetic(op.type_, &value),
                    Err(error) => Err(error),
                }
            },
            _ => Ok(Value::Absent),
        }
    }

    /// The statements run in order; what they evaluate to is dropped.
    pub fn visit_compound(&mut self, compound: &Compound) -> (result: Result<
        Value,
        EvaluationError,
    >)
        requires
            old(self).wf(),
        ensures
            old(self).accords(
                *final(self),
                result,
                completed(run_all(old(self).reals(), old(self).calls(), compound@.children, old(self).stack())),
            ),
        decreases old(self).calls().limit, compound, 0nat,
    {
        self.visit_all(&compound.children)
    }

    /// Runs the nodes in order.
    fn visit_all(&mut self, nodes: &Vec<Node>) -> (result: Result<Value, EvaluationError>)
        requires
            old(self).wf(),
        ensures
            old(self).accords(
                *final(self),
                result,
                completed(run_all(old(self).reals(), old(self).calls(), nodes_view(*nodes), old(self).stack())),
            ),
        decreases old(self).calls().limit, nodes, 0nat,
    {
        let ghost views = nodes_view(*nodes);
        assert(views.skip(0) =~= views);
        let mut i: usize = 0;
        while i < nodes.len()
            invariant
                i <= nodes.len(),
                views == nodes_view(*nodes),
                self.arithmetic() == old(self).arithmetic(),
                self.calls() == old(self).calls(),
                self.wf(),
                run_all(self.reals(), self.calls(), views, old(self).stack()) == run_all(
                    self.reals(),
                    self.calls(),
                    views.skip(i as int),
                    self.stack(),
                ),
            decreases nodes.len() - i,
        {
            assert(views.skip(i as int).first() == nodes@[i as int]@);
            assert(views.skip(i as int).drop_first() =~= views.skip(i + 1));
            match self.visit(&nodes[i]) {
                Ok(_) => {},
                Err(error) => {
                    return Err(error);
                },
            }
            i += 1;
        }
        assert(views.skip(i as int).len() == 0);
        Ok(Value::Absent)
    }

    /// The right side is evaluated and bound to the target's name, in lower
    /// case, in the top record.
    pub fn visit_assign(&mut self, assign: &Node) -> (result: Result<Value, EvaluationError>)
        requires
            old(self).wf(),
            assign is Assign,
        ensures
            old(self).accords(
                *final(self),
                result,
                run(old(self).reals(), old(self).calls(), assign@, old(self).stack()),
            ),
        decreases old(self).calls().limit, assign, 0nat,
    {
        match assign {
            Node::Assign(left, _, right) => {
                let value = match self.visit(right) {
                    Ok(value) => value,
                    Err(error) => {
                        return Err(error);
                    },
                };
                if self.call_stack.len() == 0 {
                    return Err(EvaluationError::NoActiveFrame);
                }
                let name = match &left.value {
                    Value::String(name) => name,
                    _ => {
                        return Err(EvaluationError::NotAnIdentifier);
                    },
                };
                match self.call_stack.peek() {
                    Some(ar) => {
                        ar.set(to_lowercase(name), value);
                        Ok(Value::Absent)
                    },
                    None => Err(EvaluationError::NoActiveFrame),
                }
            },
            _ => Ok(Value::Absent),
        }
    }

    /// The value that the top record binds the name to, in lower case.
    pub fn visit_var(&mut self, var: &Var) -> (result: Result<Value, EvaluationError>)
        requires
            old(self).wf(),
        ensures
            old(self).accords(*final(self), result, read(var@, old(self).stack())),
    {
        match self.call_stack.top() {
            None => Err(EvaluationError::NoActiveFrame),
            Some(ar) => match &var.value {
                Value::String(name) => match ar.get(to_lowercase(name)) {
                    Some(value) => Ok(value.clone()),
                    None => Err(EvaluationError::UndefinedVariable),
                },
                _ => Err(EvaluationError::NotAnIdentifier),
            },
        }
    }

    /// A record for the program is pushed and its block runs on it. The
    /// record stays on the stack, so that the bindings can be inspected.
    pub fn visit_program(&mut self, program: &Node) -> (result: Result<Value, EvaluationError>)
        requires
            old(self).wf(),
            program is Program,
        ensures
            old(self).accords(
                *final(self),
                result,
                run(old(self).reals(), old(self).calls(), program@, old(self).stack()),
            ),
        decreases old(self).calls().limit, program, 0nat,
    {
        match program {
            Node::Program(name, block) => {
                self.call_stack.push(ActivationRecord::new(name.clone(), ARType::Program, 1));
                match self.visit_block(block) {
                    Ok(_) => {},
                    Err(error) => {
                        return Err(error);
                    },
                }
                let level: usize = match self.call_stack.top() {
                    Some(ar) => ar.nesting_level,
                    None => 1,
                };
                if level != 1 {
                    self.call_stack.pop();
                }
                Ok(Value::Absent)
            },
            _ => Ok(Value::Absent),
        }
    }

    /// The declarations run, then the statements.
    pub fn visit_block(&mut self, block: &Block) -> (result: Result<Value, EvaluationError>)
        requires
            old(self).wf(),
        ensures
            old(self).accords(
                *final(self),
                result,
                completed(run_block(old(self).reals(), old(self).calls(), block@, old(self).stack())),
            ),
        decreases old(self).calls().limit, block, 0nat,
    {
        match self.visit_all(&block.declarations) {
            Ok(_) => {},
            Err(error) => {
                return Err(error);
            },
        }
        match self.visit(&block.compound_statement) {
            Ok(_) => Ok(Value::Absent),
            Err(error) => Err(error),
        }
    }

    /// A declaration of a variable does nothing when it runs.
    pub fn visit_var_decl(&mut self, var_decl: &Node) -> (result: Result<Value, EvaluationError>)
        requires
            var_decl is VarDecl,
        ensures
            *final(self) == *old(self),
            result matches Ok(value) && value@ == ValueView::Absent,
    {
        Ok(Value::Absent)
    }

    /// The name of a type does nothing when it runs.
    pub fn visit_type(&mut self, type_: &Type) -> (result: Result<Value, EvaluationError>)
        ensures
            *final(self) == *old(self),
            result matches Ok(value) && value@ == ValueView::Absent,
    {
        Ok(Value::Absent)
    }

    /// A declaration of a procedure does nothing when it runs.
    pub fn visit_procedure_decl(&mut self, procedure_decl: &Node) -> (result: Result<
        Value,
        EvaluationError,
    >)
        requires
            procedure_decl is ProcedureDecl,
        ensures
            *final(self) == *old(self),
            result matches Ok(value) && value@ == ValueView::Absent,
    {
        Ok(Value::Absent)
    }

    /// The arguments are evaluated on the caller's stack and bound in a new
    /// record, the record is pushed, the body of the callee runs, and the
    /// record is popped.
    pub fn visit_procedure_call(&mut self, procedure_call: &ProcedureCall) -> (result: Result<
        Value,
        EvaluationError,
    >)
        requires
            old(self).wf(),
        ensures
            old(self).accords(
                *final(self),
                result,
                run_call(old(self).reals(), old(self).calls(), procedure_call@, old(self).stack()),
            ),
        decreases old(self).calls().limit, procedure_call, 0nat,
    {
        let symbol = match &procedure_call.proc_symbol {
            Some(symbol) => symbol,
            None => {
                return Err(EvaluationError::UnresolvedCall);
            },
        };
        let mut ar = ActivationRecord::new(
            procedure_call.proc_name.clone(),
            ARType::Procedure,
            2,
        );
        let ghost params = symbol@.formal_params;
        let ghost arguments = procedure_call@.actual_params;
        let ghost start = ar@;
        assert(params.skip(0) =~= params);
        assert(arguments.skip(0) =~= arguments);
        let mut i: usize = 0;
        while i < symbol.formal_params.len() && i < procedure_call.actual_params.len()
            invariant
                i <= symbol.formal_params.len(),
                i <= procedure_call.actual_params.len(),
                params == symbol@.formal_params,
                arguments == procedure_call@.actual_params,
                procedure_call@.proc_symbol == Some(symbol@),
                start == procedure_record(procedure_call@.proc_name),
                self.arithmetic() == old(self).arithmetic(),
                self.calls() == old(self).calls(),
                self.wf(),
                bind_arguments(self.reals(), self.calls(), params, arguments, start, old(self).stack())
                    == bind_arguments(
                    self.reals(),
                    self.calls(),
                    params.skip(i as int),
                    arguments.skip(i as int),
                    ar@,
                    self.stack(),
                ),
            decreases procedure_call.actual_params.len() - i,
        {
            assert(arguments.skip(i as int).first() == procedure_call.actual_params@[i as int]@);
            assert(params.skip(i as int).first() == symbol.formal_params@[i as int]@);
            assert(arguments.skip(i as int).drop_first() =~= arguments.skip(i + 1));
            assert(params.skip(i as int).drop_first() =~= params.skip(i + 1));
            let ghost before = self.stack();
            let ghost frame = ar@;
            let value = match self.visit(&procedure_call.actual_params[i]) {
                Ok(value) => value,
                Err(error) => {
                    proof {
                        let bound = bind_arguments(
                            self.reals(),
                            old(self).calls(),
                            params.skip(i as int),
                            arguments.skip(i as int),
                            frame,
                            before,
                        );
                        assert(params.skip(i as int).len() > 0);
                        assert(arguments.skip(i as int).len() > 0);
                        assert(bound is Err && bound->Err_0.error == error);
                    }
                    return Err(error);
                },
            };
            ar.set(to_lowercase(&symbol.formal_params[i].name), value);
            i += 1;
        }
        assert(params.skip(i as int).len() == 0 || arguments.skip(i as int).len() == 0);
        self.call_stack.push(ar);
        let entered = match self.callee(symbol) {
            Some(entered) => entered,
            None => {
                return Err(EvaluationError::UnresolvedCall);
            },
        };
        let body = match &entered.block_ast {
            Some(body) => clone_block(body),
            None => {
                return Err(EvaluationError::UnresolvedCall);
            },
        };
        if self.limit == 0 {
            return Err(EvaluationError::CallDepthExceeded);
        }
        let ghost before = self.calls();
        let ghost symbol_entered = entered@;
        self.limit = self.limit - 1;
        self.active.push(entered);
        assert(self.calls().active =~= before.active.push(symbol_entered));
        match self.visit_block(&body) {
            Ok(_) => {},
            Err(error) => {
                return Err(error);
            },
        }
        assert(self.calls().active == before.active.push(symbol_entered));
        let ghost running = self.active@;
        assert(running.len() == before.active.len() + 1);
        self.active.pop();
        self.limit = self.limit + 1;
        assert(self.active@ =~= running.drop_last());
        assert forall|i: int| 0 <= i < before.active.len() implies #[trigger] self.calls().active[i]
            == before.active[i] by {
            assert(self.calls().active[i] == running[i]@);
            assert(before.active.push(symbol_entered)[i] == before.active[i]);
        }
        assert(self.calls().active =~= before.active);
        assert(self.calls().limit == before.limit);
        self.call_stack.pop();
        Ok(Value::Absent)
    }

    /// The symbol whose body a call of `procedure` runs, if there is one.
    fn callee(&self, procedure: &ProcedureSymbol) -> (found: Option<ProcedureSymbol>)
        ensures
            match callee(self.calls().active, procedure@) {
                Some(entered) => found matches Some(symbol) && symbol@ == entered,
                None => found is None,
            },
    {
        if procedure.block_ast.is_some() {
            return Some(procedure.clone());
        }
        assert(procedure@.block_ast is None);
        let ghost active = self.calls().active;
        let mut i: usize = self.active.len();
        assert(active.take(i as int) =~= active);
        while i > 0
            invariant
                i <= self.active@.len(),
                active == self.calls().active,
                procedure@.block_ast is None,
                running(active, procedure@) == running(active.take(i as int), procedure@),
            decreases i,
        {
            let candidate = &self.active[i - 1];
            assert(active.take(i as int).last() == candidate@);
            assert(active.take(i as int).drop_last() =~= active.take(i - 1));
            if candidate.name == procedure.name && candidate.scope_level == procedure.scope_level {
                assert(same_procedure(candidate@, procedure@));
                return Some(candidate.clone());
            }
            assert(!same_procedure(candidate@, procedure@));
            i -= 1;
        }
        None
    }
}

/// Whether nothing in the tree starts a program: neither the tree itself nor
/// a body that one of its calls was resolved to holds a program node. The
/// body of a declared procedure does not count, since a declaration does not
/// run it.
pub open spec fn program_free(node: NodeView) -> bool
    decreases node,
{
    match node {
        NodeView::BinOp(left, _, right) => program_free(*left) && program_free(*right),
        NodeView::UnaryOp(_, operand) => program_free(*operand),
        NodeView::Compound(compound) => all_program_free(compound.children),
        NodeView::Assign(_, _, right) => program_free(*right),
        NodeView::Program(_, _) => false,
        NodeView::ProcedureCall(call) => call_program_free(call),
        _ => true,
    }
}

/// Whether nothing in the trees starts a program.
pub open spec fn all_program_free(nodes: Seq<NodeView>) -> bool
    decreases nodes,
{
    forall|i: int| 0 <= i < nodes.len() ==> program_free(#[trigger] nodes[i])
}

/// Whether nothing in the block starts a program.
pub open spec fn block_program_free(block: BlockView) -> bool
    decreases block,
{
    all_program_free(block.declarations) && program_free(block.compound_statement)
}

/// Whether nothing in the arguments of the call or in the body it was
/// resolved to starts a program.
pub open spec fn call_program_free(call: ProcedureCallView) -> bool
    decreases call,
{
    &&& all_program_free(call.actual_params)
    &&& match call.proc_symbol {
        Some(procedure) => match procedure.block_ast {
            Some(body) => block_program_free(*body),
            None => true,
        },
        None => true,
    }
}

/// Whether none of the running procedures has a body that starts a program.
pub open spec fn calls_program_free(calls: Calls) -> bool {
    forall|i: int|
        0 <= i < calls.active.len() ==> ((#[trigger] calls.active[i]).block_ast matches Some(
            body,
        ) ==> block_program_free(*body))
}

/// A running procedure that is found is one of the running procedures.
pub proof fn lemma_running_is_active(
    active: Seq<ProcedureSymbolView>,
    procedure: ProcedureSymbolView,
)
    ensures
        running(active, procedure) matches Some(found) ==> exists|i: int|
            0 <= i < active.len() && active[i] == found,
    decreases active.len(),
{
    if active.len() > 0 && !same_procedure(active.last(), procedure) {
        lemma_running_is_active(active.drop_last(), procedure);
        if let Some(found) = running(active.drop_last(), procedure) {
            let i = choose|i: int| 0 <= i < active.drop_last().len() && active.drop_last()[i] == found;
            assert(active[i] == found);
        }
    } else if active.len() > 0 {
        assert(active[active.len() - 1] == active.last());
    }
}

/// Whether `after` differs from `before` in its top record at most.
pub open spec fn same_below_top(
    before: Seq<ActivationRecordView>,
    after: Seq<ActivationRecordView>,
) -> bool {
    &&& after.len() == before.len()
    &&& forall|i: int| 0 <= i < before.len() - 1 ==> after[i] == before[i]
}

/// A call that starts no program leaves the stack as the evaluation of its
/// arguments left it: the record of the call is gone, the depth is that from
/// before the call, and nothing that the body assigned has reached a record
/// of the caller. This holds of calls inside calls too.
pub proof fn lemma_call_returns_to_caller(
    reals: spec_fn(RealOperator, Real, Real) -> Real,
    calls: Calls,
    call: ProcedureCallView,
    stack: Seq<ActivationRecordView>,
)
    requires
        call_program_free(call),
        calls_program_free(calls),
    ensures
        run_call(reals, calls, call, stack) matches Ok(evaluation) ==> {
            &&& call.proc_symbol matches Some(procedure)
            &&& bind_arguments(
                reals,
                calls,
                procedure.formal_params,
                call.actual_params,
                procedure_record(call.proc_name),
                stack,
            ) matches Ok((_, caller))
            &&& evaluation.stack == caller
            &&& evaluation.stack.len() == stack.len()
            &&& same_but_bindings(stack, evaluation.stack)
        },
    decreases calls.limit, call,
{
    if let Some(procedure) = call.proc_symbol {
        let start = procedure_record(call.proc_name);
        lemma_bind_arguments_keeps_top_shape(
            reals,
            calls,
            procedure.formal_params,
            call.actual_params,
            start,
            stack,
        );
        if let Ok((frame, caller)) = bind_arguments(
            reals,
            calls,
            procedure.formal_params,
            call.actual_params,
            start,
            stack,
        ) {
            if let Some((body, entered)) = body_to_run(calls.active, procedure) {
                if calls.limit > 0 {
                    let inner = Calls {
                        active: calls.active.push(entered),
                        limit: (calls.limit - 1) as nat,
                    };
                    assert(block_program_free(body)) by {
                        if procedure.block_ast is None {
                            lemma_running_is_active(calls.active, procedure);
                        }
                    }
                    assert(calls_program_free(inner)) by {
                        assert forall|i: int| 0 <= i < inner.active.len() implies ((
                        #[trigger] inner.active[i]).block_ast matches Some(b)
                            ==> block_program_free(*b)) by {
                            if i < calls.active.len() {
                                assert(inner.active[i] == calls.active[i]);
                            }
                        }
                    }
                    lemma_run_block_keeps_top_shape(reals, inner, body, caller.push(frame));
                    if let Ok(after) = run_block(reals, inner, body, caller.push(frame)) {
                        assert(popped(after) =~= caller);
                    }
                }
            }
        }
    }
}

/// A binding of the frame stays as it is while arguments are bound, unless
/// one of the parameters that get an argument has its name.
pub proof fn lemma_binding_survives(
    reals: spec_fn(RealOperator, Real, Real) -> Real,
    calls: Calls,
    params: Seq<VarSymbolView>,
    arguments: Seq<NodeView>,
    frame: ActivationRecordView,
    stack: Seq<ActivationRecordView>,
    key: Seq<char>,
)
    requires
        forall|j: int|
            0 <= j < params.len() && j < arguments.len() ==> lowercase(
                (#[trigger] params[j]).name,
            ) != key,
    ensures
        bind_arguments(reals, calls, params, arguments, frame, stack) matches Ok((bound, _))
            ==> bound.get(key) == frame.get(key),
    decreases calls.limit, arguments,
{
    if params.len() > 0 && arguments.len() > 0 {
        if let Ok(argument) = run(reals, calls, arguments.first(), stack) {
            assert(lowercase(params[0].name) != key);
            assert forall|j: int|
                0 <= j < params.drop_first().len() && j < arguments.drop_first().len() implies lowercase(
                (#[trigger] params.drop_first()[j]).name,
            ) != key by {
                assert(params.drop_first()[j] == params[j + 1]);
            }
            lemma_binding_survives(
                reals,
                calls,
                params.drop_first(),
                arguments.drop_first(),
                frame.set(lowercase(params.first().name), argument.value),
                argument.stack,
                key,
            );
        }
    }
}

/// Arguments are bound by position: the frame of a call binds the name of
/// the parameter at `position` to the value of the argument at `position`,
/// evaluated on the stack that the arguments before it left, unless a later
/// parameter that gets an argument has the same name.
pub proof fn lemma_arguments_bind_by_position(
    reals: spec_fn(RealOperator, Real, Real) -> Real,
    calls: Calls,
    params: Seq<VarSymbolView>,
    arguments: Seq<NodeView>,
    frame: ActivationRecordView,
    stack: Seq<ActivationRecordView>,
    position: int,
)
    requires
        0 <= position < params.len(),
        position < arguments.len(),
        bind_arguments(reals, calls, params, arguments, frame, stack) is Ok,
        forall|j: int|
            position < j < params.len() && j < arguments.len() ==> lowercase(
                (#[trigger] params[j]).name,
            ) != lowercase(params[position].name),
    ensures
        bind_arguments(
            reals,
            calls,
            params.take(position),
            arguments.take(position),
            frame,
            stack,
        ) matches Ok((_, before)) && run(reals, calls, arguments[position], before) matches Ok(
            argument,
        ) && bind_arguments(reals, calls, params, arguments, frame, stack)->Ok_0.0.get(
            lowercase(params[position].name),
        ) == Some(argument.value),
    decreases position,
{
    let key = lowercase(params[position].name);
    let argument = run(reals, calls, arguments.first(), stack)->Ok_0;
    let next = frame.set(lowercase(params.first().name), argument.value);
    if position == 0 {
        assert(params.take(0).len() == 0);
        assert forall|j: int|
            0 <= j < params.drop_first().len() && j < arguments.drop_first().len() implies lowercase(
            (#[trigger] params.drop_first()[j]).name,
        ) != key by {
            assert(params.drop_first()[j] == params[j + 1]);
        }
        lemma_binding_survives(
            reals,
            calls,
            params.drop_first(),
            arguments.drop_first(),
            next,
            argument.stack,
            key,
        );
    } else {
        assert forall|j: int|
            position - 1 < j < params.drop_first().len() && j < arguments.drop_first().len() implies lowercase(
            (#[trigger] params.drop_first()[j]).name,
        ) != lowercase(params.drop_first()[position - 1].name) by {
            assert(params.drop_first()[j] == params[j + 1]);
        }
        lemma_arguments_bind_by_position(
            reals,
            calls,
            params.drop_first(),
            arguments.drop_first(),
            next,
            argument.stack,
            position - 1,
        );
        assert(params.take(position).first() == params.first());
        assert(arguments.take(position).first() == arguments.first());
        assert(params.take(position).drop_first() =~= params.drop_first().take(position - 1));
        assert(arguments.take(position).drop_first() =~= arguments.drop_first().take(
            position - 1,
        ));
    }
}

/// A program keeps its record: after a program whose block starts no other
/// program has run, the stack is the one from before with the program's
/// record on top, at nesting level 1.
pub proof fn lemma_program_keeps_its_record(
    reals: spec_fn(RealOperator, Real, Real) -> Real,
    calls: Calls,
    name: Seq<char>,
    block: BlockView,
    stack: Seq<ActivationRecordView>,
)
    requires
        block_program_free(block),
        calls_program_free(calls),
    ensures
        run(reals, calls, NodeView::Program(name, Box::new(block)), stack) matches Ok(evaluation) ==> {
            &&& evaluation.stack.len() == stack.len() + 1
            &&& evaluation.stack.drop_last() == stack
            &&& evaluation.stack.last().name == name
            &&& evaluation.stack.last().type_ == ARType::Program
            &&& evaluation.stack.last().nesting_level == 1
        },
{
    let started = stack.push(program_record(name));
    lemma_run_block_keeps_top_shape(reals, calls, block, started);
    if let Ok(after) = run_block(reals, calls, block, started) {
        assert(after.drop_last() =~= stack);
    }
}

/// Whether two records differ in their bindings at most.
pub open spec fn same_shape(before: ActivationRecordView, after: ActivationRecordView) -> bool {
    &&& after.name == before.name
    &&& after.type_ == before.type_
    &&& after.nesting_level == before.nesting_level
}

/// Whether `after` is `before` but for the bindings of its top record.
pub open spec fn same_but_bindings(
    before: Seq<ActivationRecordView>,
    after: Seq<ActivationRecordView>,
) -> bool {
    &&& same_below_top(before, after)
    &&& before.len() > 0 ==> same_shape(before.last(), after.last())
}

/// Evaluating a tree that starts no program changes nothing on the stack
/// but the bindings of the top record.
pub proof fn lemma_run_keeps_top_shape(
    reals: spec_fn(RealOperator, Real, Real) -> Real,
    calls: Calls,
    node: NodeView,
    stack: Seq<ActivationRecordView>,
)
    requires
        program_free(node),
        calls_program_free(calls),
    ensures
        run(reals, calls, node, stack) matches Ok(evaluation) ==> same_but_bindings(
            stack,
            evaluation.stack,
        ),
    decreases calls.limit, node,
{
    match node {
        NodeView::BinOp(left, _, right) => {
            lemma_run_keeps_top_shape(reals, calls, *left, stack);
            if let Ok(l) = run(reals, calls, *left, stack) {
                lemma_run_keeps_top_shape(reals, calls, *right, l.stack);
            }
        },
        NodeView::UnaryOp(_, operand) => {
            lemma_run_keeps_top_shape(reals, calls, *operand, stack);
        },
        NodeView::Compound(compound) => {
            lemma_run_all_keeps_top_shape(reals, calls, compound.children, stack);
        },
        NodeView::Assign(_, _, right) => {
            lemma_run_keeps_top_shape(reals, calls, *right, stack);
        },
        NodeView::ProcedureCall(call) => {
            lemma_call_returns_to_caller(reals, calls, call, stack);
        },
        _ => {},
    }
}

/// Running trees that start no program changes nothing on the stack but the
/// bindings of the top record.
pub proof fn lemma_run_all_keeps_top_shape(
    reals: spec_fn(RealOperator, Real, Real) -> Real,
    calls: Calls,
    nodes: Seq<NodeView>,
    stack: Seq<ActivationRecordView>,
)
    requires
        all_program_free(nodes),
        calls_program_free(calls),
    ensures
        run_all(reals, calls, nodes, stack) matches Ok(after) ==> same_but_bindings(stack, after),
    decreases calls.limit, nodes,
{
    if nodes.len() > 0 {
        lemma_run_keeps_top_shape(reals, calls, nodes.first(), stack);
        if let Ok(first) = run(reals, calls, nodes.first(), stack) {
            assert forall|i: int| 0 <= i < nodes.drop_first().len() implies program_free(
                #[trigger] nodes.drop_first()[i],
            ) by {
                assert(nodes.drop_first()[i] == nodes[i + 1]);
            }
            lemma_run_all_keeps_top_shape(reals, calls, nodes.drop_first(), first.stack);
        }
    }
}

/// Running a block that starts no program changes nothing on the stack but
/// the bindings of the top record.
pub proof fn lemma_run_block_keeps_top_shape(
    reals: spec_fn(RealOperator, Real, Real) -> Real,
    calls: Calls,
    block: BlockView,
    stack: Seq<ActivationRecordView>,
)
    requires
        block_program_free(block),
        calls_program_free(calls),
    ensures
        run_block(reals, calls, block, stack) matches Ok(after) ==> same_but_bindings(stack, after),
    decreases calls.limit, block,
{
    lemma_run_all_keeps_top_shape(reals, calls, block.declarations, stack);
    if let Ok(declared) = run_all(reals, calls, block.declarations, stack) {
        lemma_run_keeps_top_shape(reals, calls, block.compound_statement, declared);
    }
}

/// Evaluating arguments that start no program changes nothing on the stack
/// but the bindings of the top record.
pub proof fn lemma_bind_arguments_keeps_top_shape(
    reals: spec_fn(RealOperator, Real, Real) -> Real,
    calls: Calls,
    params: Seq<VarSymbolView>,
    arguments: Seq<NodeView>,
    frame: ActivationRecordView,
    stack: Seq<ActivationRecordView>,
)
    requires
        all_program_free(arguments),
        calls_program_free(calls),
    ensures
        bind_arguments(reals, calls, params, arguments, frame, stack) matches Ok((_, after))
            ==> same_but_bindings(stack, after),
    decreases calls.limit, arguments,
{
    if params.len() > 0 && arguments.len() > 0 {
        lemma_run_keeps_top_shape(reals, calls, arguments.first(), stack);
        if let Ok(argument) = run(reals, calls, arguments.first(), stack) {
            assert forall|i: int| 0 <= i < arguments.drop_first().len() implies program_free(
                #[trigger] arguments.drop_first()[i],
            ) by {
                assert(arguments.drop_first()[i] == arguments[i + 1]);
            }
            lemma_bind_arguments_keeps_top_shape(
                reals,
                calls,
                params.drop_first(),
                arguments.drop_first(),
                frame.set(lowercase(params.first().name), argument.value),
                argument.stack,
            );
        }
    }
}

/// Whether one of the parameters that get an argument is bound under `key`.
pub open spec fn binds(params: Seq<VarSymbolView>, arguments: Seq<NodeView>, key: Seq<char>) -> bool {
    exists|j: int|
        0 <= j < params.len() && j < arguments.len() && lowercase((#[trigger] params[j]).name)
            == key
}

/// Binding arguments binds the parameters and nothing else: what the frame
/// binds afterwards it bound before, or it is a parameter that got an
/// argument; and every such parameter is bound. The name, the kind and the
/// level of the frame stay. The record of a call starts without bindings, so
/// that when it is pushed it binds the parameters alone.
pub proof fn lemma_only_parameters_are_bound(
    reals: spec_fn(RealOperator, Real, Real) -> Real,
    calls: Calls,
    params: Seq<VarSymbolView>,
    arguments: Seq<NodeView>,
    frame: ActivationRecordView,
    stack: Seq<ActivationRecordView>,
    key: Seq<char>,
)
    ensures
        bind_arguments(reals, calls, params, arguments, frame, stack) matches Ok((bound, _)) ==> {
            &&& same_shape(frame, bound)
            &&& bound.members.contains_key(key) <==> frame.members.contains_key(key) || binds(
                params,
                arguments,
                key,
            )
        },
    decreases arguments,
{
    if params.len() > 0 && arguments.len() > 0 {
        if let Ok(argument) = run(reals, calls, arguments.first(), stack) {
            let next = frame.set(lowercase(params.first().name), argument.value);
            lemma_only_parameters_are_bound(
                reals,
                calls,
                params.drop_first(),
                arguments.drop_first(),
                next,
                argument.stack,
                key,
            );
            if binds(params.drop_first(), arguments.drop_first(), key) {
                let j = choose|j: int|
                    0 <= j < params.drop_first().len() && j < arguments.drop_first().len()
                        && lowercase((#[trigger] params.drop_first()[j]).name) == key;
                assert(params[j + 1] == params.drop_first()[j]);
            }
            if binds(params, arguments, key) {
                let j = choose|j: int|
                    0 <= j < params.len() && j < arguments.len() && lowercase(
                        (#[trigger] params[j]).name,
                    ) == key;
                if j > 0 {
                    assert(params.drop_first()[j - 1] == params[j]);
                }
            }
            if lowercase(params.first().name) == key {
                assert(params[0] == params.first());
            }
        }
    }
}

/// Whether the tree is an expression that reads and computes and does
/// nothing else: literals, variables and operators.
pub open spec fn reads_only(node: NodeView) -> bool
    decreases node,
{
    match node {
        NodeView::BinOp(left, _, right) => reads_only(*left) && reads_only(*right),
        NodeView::UnaryOp(_, operand) => reads_only(*operand),
        NodeView::Num(_) => true,
        NodeView::Var(_) => true,
        _ => false,
    }
}

/// An expression that only reads leaves the stack as it is.
pub proof fn lemma_reading_leaves_the_stack(
    reals: spec_fn(RealOperator, Real, Real) -> Real,
    calls: Calls,
    node: NodeView,
    stack: Seq<ActivationRecordView>,
)
    requires
        reads_only(node),
    ensures
        run(reals, calls, node, stack) matches Ok(evaluation) ==> evaluation.stack == stack,
    decreases node,
{
    match node {
        NodeView::BinOp(left, _, right) => {
            lemma_reading_leaves_the_stack(reals, calls, *left, stack);
            lemma_reading_leaves_the_stack(reals, calls, *right, stack);
        },
        NodeView::UnaryOp(_, operand) => {
            lemma_reading_leaves_the_stack(reals, calls, *operand, stack);
        },
        _ => {},
    }
}

/// Arguments that only read leave the stack as it is.
pub proof fn lemma_reading_arguments_leave_the_stack(
    reals: spec_fn(RealOperator, Real, Real) -> Real,
    calls: Calls,
    params: Seq<VarSymbolView>,
    arguments: Seq<NodeView>,
    frame: ActivationRecordView,
    stack: Seq<ActivationRecordView>,
)
    requires
        forall|i: int| 0 <= i < arguments.len() ==> reads_only(#[trigger] arguments[i]),
    ensures
        bind_arguments(reals, calls, params, arguments, frame, stack) matches Ok((_, after))
            ==> after == stack,
    decreases arguments,
{
    if params.len() > 0 && arguments.len() > 0 {
        lemma_reading_leaves_the_stack(reals, calls, arguments.first(), stack);
        if let Ok(argument) = run(reals, calls, arguments.first(), stack) {
            assert forall|i: int| 0 <= i < arguments.drop_first().len() implies reads_only(
                #[trigger] arguments.drop_first()[i],
            ) by {
                assert(arguments.drop_first()[i] == arguments[i + 1]);
            }
            lemma_reading_arguments_leave_the_stack(
                reals,
                calls,
                params.drop_first(),
                arguments.drop_first(),
                frame.set(lowercase(params.first().name), argument.value),
                stack,
            );
        }
    }
}

/// A call restores the stack: after a call whose arguments only read and
/// which starts no program, the stack is the one from before the call,
/// record for record. One record was pushed and one was popped for it, and
/// for every call inside it.
pub proof fn lemma_call_restores_the_stack(
    reals: spec_fn(RealOperator, Real, Real) -> Real,
    calls: Calls,
    call: ProcedureCallView,
    stack: Seq<ActivationRecordView>,
)
    requires
        call_program_free(call),
        calls_program_free(calls),
        forall|i: int|
            0 <= i < call.actual_params.len() ==> reads_only(#[trigger] call.actual_params[i]),
    ensures
        run_call(reals, calls, call, stack) matches Ok(evaluation) ==> evaluation.stack == stack
            && evaluation.value == ValueView::Absent,
{
    lemma_call_returns_to_caller(reals, calls, call, stack);
    if let Some(procedure) = call.proc_symbol {
        lemma_reading_arguments_leave_the_stack(
            reals,
            calls,
            procedure.formal_params,
            call.actual_params,
            procedure_record(call.proc_name),
            stack,
        );
    }
}

impl<A: Fn(RealOperator, Real, Real) -> Real> NodeVisitor for Interpreter<A> {
    type Output = Result<Value, EvaluationError>;

    open spec fn accepts(&self, node: Node) -> bool {
        self.wf()
    }

    open spec fn visited(
        &self,
        node: Node,
        after: &Self,
        left: Node,
        output: Result<Value, EvaluationError>,
    ) -> bool {
        left == node && self.accords(*after, output, run(self.reals(), self.calls(), node@, self.stack()))
    }

    fn visit(&mut self, node: &mut Node) -> (output: Result<Value, EvaluationError>) {
        Interpreter::visit(self, node)
    }
}

} // verus!
