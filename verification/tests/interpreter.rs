use pascal::ast::{Block, Compound, Node, ProcedureCall, Var};
use pascal::error::{Error, EvaluationError};
use pascal::interpreter::{Interpreter, NodeVisitor, RealOperator, CALL_DEPTH_LIMIT};
use pascal::lexer::Lexer;
use pascal::parser::Parser;
use pascal::semantic_analyzer::SemanticAnalyzer;
use pascal::symbols::{
    ARType, ActivationRecord, CallStack, ProcedureSymbol, Symbol, SymbolTable, SymbolTableBuilder,
    VarSymbol,
};
use pascal::tokens::{Real, Token, TokenType, Value};

fn ieee(operator: RealOperator, left: Real, right: Real) -> Real {
    let l = f32::from_bits(left.to_bits());
    let r = f32::from_bits(right.to_bits());
    let result = match operator {
        RealOperator::Add => l + r,
        RealOperator::Subtract => l - r,
        RealOperator::Multiply => l * r,
        RealOperator::Divide => l / r,
    };
    Real::from_bits(result.to_bits())
}

fn real_literal(text: String) -> Option<Real> {
    text.parse::<f32>().ok().map(|x| Real::from_bits(x.to_bits()))
}

fn float(x: f32) -> Value {
    Value::Float(Real::from_bits(x.to_bits()))
}

fn num(n: i32) -> Box<Node> {
    Box::new(Node::Num(Value::Integer(n)))
}

fn op(type_: TokenType, c: char) -> Token {
    Token::new(type_, Value::Char(c), 1, 1)
}

fn id(name: &str) -> Var {
    Var::new(Token::new(TokenType::ID, Value::String(name.to_string()), 1, 1))
}

fn parse(text: &str) -> Node {
    let lexer = Lexer::new(text.to_string(), real_literal);
    let mut parser = Parser::new(lexer).unwrap();
    parser.parse().unwrap()
}

fn walk<V: NodeVisitor>(visitor: &mut V, node: &mut Node) -> V::Output {
    visitor.visit(node)
}

fn binary(left: i32, type_: TokenType, right: i32) -> Result<Value, EvaluationError> {
    let mut node = Node::BinOp(num(left), op(type_, '?'), num(right));
    Interpreter::new(ieee).visit(&mut node)
}

#[test]
fn binary_ops() {
    let mul = Token::new(TokenType::Mul, Value::Char('*'), 1, 1);
    let plus = Token::new(TokenType::Plus, Value::Char('+'), 1, 1);
    let two = float(2.0);
    let seven = float(7.0);
    let three = float(3.0);

    let mut add_node = Node::BinOp(
        // left
        Box::new(Node::BinOp(
            // left
            Box::new(Node::Num(two)),
            // op
            mul,
            // right
            Box::new(Node::Num(seven)),
        )),
        // op
        plus,
        // right
        Box::new(Node::Num(three)),
    );

    let mut inperpreter = Interpreter::new(ieee);
    let res = inperpreter.visit(&mut add_node);
    assert_eq!(res, Ok(float(17.0)));
}

#[test]
fn unary_op() {
    let five = float(5.0);
    let two = float(2.0);
    let minus = Token::new(TokenType::Minus, Value::Char('-'), 1, 1);

    // 5 - -2
    let mut expr_node = Node::BinOp(
        // left
        Box::new(Node::Num(five)),
        // op
        minus.clone(),
        // right
        Box::new(Node::UnaryOp(
            // op
            minus.clone(),
            // right
            Box::new(Node::UnaryOp(minus, Box::new(Node::Num(two)))),
        )),
    );

    let mut inperpreter = Interpreter::new(ieee);
    let res = inperpreter.visit(&mut expr_node);
    assert_eq!(res, Ok(float(3.0)));
}

#[test]
fn variables() {
    let text = "
    PROGRAM VarTest;

    BEGIN
        BEGIN
            number := 2;
            a := nUmbEr;
            b := 10 * a + 10 * NUMBER DIV 4;
            c := a - - b;
        END;

        _x := 11;
    END.";

    let lexer = Lexer::new(text.to_string(), real_literal);
    let mut parser = Parser::new(lexer).unwrap();
    let mut tree = parser.parse().unwrap();
    let mut interpreter = Interpreter::new(ieee);
    interpreter.visit(&mut tree).unwrap();

    let mut expected = CallStack::new();
    let mut ar = ActivationRecord::new(String::from("VarTest"), ARType::Program, 1);
    ar.set(String::from("number"), Value::Integer(2));
    ar.set(String::from("a"), Value::Integer(2));
    ar.set(String::from("_x"), Value::Integer(11));
    ar.set(String::from("c"), Value::Integer(27));
    ar.set(String::from("b"), Value::Integer(25));
    expected.push(ar);
    assert_eq!(interpreter.call_stack(), &expected);
}

#[test]
fn integer_precedence_and_associativity() {
    let mut tree = parse("PROGRAM p; BEGIN a := 2 * 7 + 3; b := 5 - - - 2; c := 2 + 7 * 3; d := 20 - 5 - 3; e := (2 + 7) * 3 END.");
    let mut interpreter = Interpreter::new(ieee);
    interpreter.visit(&mut tree).unwrap();
    let frame = &interpreter.call_stack().records[0];
    assert_eq!(frame.get("a".to_string()), Some(&Value::Integer(17)));
    assert_eq!(frame.get("b".to_string()), Some(&Value::Integer(3)));
    assert_eq!(frame.get("c".to_string()), Some(&Value::Integer(23)));
    assert_eq!(frame.get("d".to_string()), Some(&Value::Integer(12)));
    assert_eq!(frame.get("e".to_string()), Some(&Value::Integer(27)));
}

#[test]
fn double_negation_cancels() {
    let minus = op(TokenType::Minus, '-');
    let mut node = Node::UnaryOp(minus.clone(), Box::new(Node::UnaryOp(minus, num(2))));
    assert_eq!(Interpreter::new(ieee).visit(&mut node), Ok(Value::Integer(2)));
    let plus = op(TokenType::Plus, '+');
    let mut node = Node::UnaryOp(plus, Box::new(Node::Num(float(-0.0))));
    let result = Interpreter::new(ieee).visit(&mut node).unwrap();
    assert!(matches!(result, Value::Float(r) if r.to_bits() == (-0.0f32).to_bits()));
}

#[test]
fn negation_of_a_real_flips_the_sign() {
    let minus = op(TokenType::Minus, '-');
    let mut node = Node::UnaryOp(minus, Box::new(Node::Num(float(2.5))));
    assert_eq!(Interpreter::new(ieee).visit(&mut node), Ok(float(-2.5)));
}

#[test]
fn integer_division_truncates() {
    assert_eq!(binary(10, TokenType::IntegerDiv, 4), Ok(Value::Integer(2)));
    assert_eq!(binary(-7, TokenType::IntegerDiv, 2), Ok(Value::Integer(-3)));
    assert_eq!(binary(7, TokenType::IntegerDiv, -2), Ok(Value::Integer(-3)));
    assert_eq!(binary(-7, TokenType::IntegerDiv, -2), Ok(Value::Integer(3)));
    assert_eq!(binary(i32::MIN, TokenType::IntegerDiv, 1), Ok(Value::Integer(i32::MIN)));
}

#[test]
fn real_division_is_exact() {
    let mut node = Node::BinOp(
        Box::new(Node::Num(float(10.0))),
        op(TokenType::FloatDiv, '/'),
        Box::new(Node::Num(float(4.0))),
    );
    assert_eq!(Interpreter::new(ieee).visit(&mut node), Ok(float(2.5)));
}

#[test]
fn division_operators_are_not_interchangeable() {
    assert_eq!(binary(10, TokenType::FloatDiv, 4), Err(EvaluationError::InvalidOperator));
    let mut node = Node::BinOp(
        Box::new(Node::Num(float(10.0))),
        op(TokenType::IntegerDiv, 'D'),
        Box::new(Node::Num(float(4.0))),
    );
    assert_eq!(Interpreter::new(ieee).visit(&mut node), Err(EvaluationError::InvalidOperator));
}

#[test]
fn integer_results_are_clamped() {
    assert_eq!(binary(i32::MAX, TokenType::Plus, 1), Ok(Value::Integer(i32::MAX)));
    assert_eq!(binary(i32::MIN, TokenType::Minus, 1), Ok(Value::Integer(i32::MIN)));
    assert_eq!(binary(65536, TokenType::Mul, 65536), Ok(Value::Integer(i32::MAX)));
    assert_eq!(binary(65536, TokenType::Mul, -65536), Ok(Value::Integer(i32::MIN)));
    assert_eq!(binary(16777217, TokenType::Plus, 0), Ok(Value::Integer(16777217)));
}

#[test]
fn arithmetic_errors() {
    assert_eq!(binary(1, TokenType::IntegerDiv, 0), Err(EvaluationError::DivisionByZero));
    assert_eq!(binary(i32::MIN, TokenType::IntegerDiv, -1), Err(EvaluationError::Overflow));
    assert_eq!(binary(1, TokenType::Comma, 2), Err(EvaluationError::InvalidOperator));
    let minus = op(TokenType::Minus, '-');
    let mut node = Node::UnaryOp(minus, num(i32::MIN));
    assert_eq!(Interpreter::new(ieee).visit(&mut node), Err(EvaluationError::Overflow));
    let mut node = Node::UnaryOp(op(TokenType::Mul, '*'), num(1));
    assert_eq!(Interpreter::new(ieee).visit(&mut node), Err(EvaluationError::InvalidOperator));
}

#[test]
fn mixed_kinds_are_an_error() {
    let mut node = Node::BinOp(num(1), op(TokenType::Plus, '+'), Box::new(Node::Num(float(2.0))));
    assert_eq!(Interpreter::new(ieee).visit(&mut node), Err(EvaluationError::KindMismatch));
    let mut node = Node::BinOp(Box::new(Node::NoOp), op(TokenType::Plus, '+'), num(1));
    assert_eq!(Interpreter::new(ieee).visit(&mut node), Err(EvaluationError::KindMismatch));
    let mut node = Node::UnaryOp(
        op(TokenType::Minus, '-'),
        Box::new(Node::Num(Value::String("x".to_string()))),
    );
    assert_eq!(Interpreter::new(ieee).visit(&mut node), Err(EvaluationError::KindMismatch));
}

#[test]
fn names_need_a_frame_and_a_binding() {
    let mut node = Node::Var(id("a"));
    assert_eq!(Interpreter::new(ieee).visit(&mut node), Err(EvaluationError::NoActiveFrame));
    let mut node = Node::Assign(id("a"), op(TokenType::Assign, '='), num(1));
    assert_eq!(Interpreter::new(ieee).visit(&mut node), Err(EvaluationError::NoActiveFrame));
    let mut tree = parse("PROGRAM p; BEGIN a := b END.");
    assert_eq!(Interpreter::new(ieee).visit(&mut tree), Err(EvaluationError::UndefinedVariable));
    let mut tree = Node::Program(
        "p".to_string(),
        Box::new(Block::new(
            Vec::new(),
            Node::Var(Var::new(Token::new(TokenType::IntegerConst, Value::Integer(1), 1, 1))),
        )),
    );
    assert_eq!(Interpreter::new(ieee).visit(&mut tree), Err(EvaluationError::NotAnIdentifier));
}

#[test]
fn assignment_round_trip() {
    let stack = pascal::interpret(
        "PROGRAM p; VAR a: INTEGER; BEGIN a := 5 END.".to_string(),
        real_literal,
        ieee,
    )
    .unwrap();
    assert_eq!(stack.len(), 1);
    assert_eq!(stack.records[0].get("a".to_string()), Some(&Value::Integer(5)));
    assert_eq!(stack.records[0].nesting_level, 1);
    assert_eq!(stack.records[0].type_, ARType::Program);
    assert_eq!(stack.records[0].name, "p");
}

#[test]
fn real_literals_and_arithmetic_from_source() {
    let stack = pascal::interpret(
        "PROGRAM p; VAR a, b: REAL; BEGIN a := 10.0 / 4.0; b := a * 2.0 - 0.5 END.".to_string(),
        real_literal,
        ieee,
    )
    .unwrap();
    assert_eq!(stack.records[0].get("a".to_string()), Some(&float(2.5)));
    assert_eq!(stack.records[0].get("b".to_string()), Some(&float(4.5)));
}

#[test]
fn names_are_bound_in_lower_case() {
    let stack = pascal::interpret(
        "PROGRAM p; VAR Count: INTEGER; BEGIN COUNT := 1; count := Count + 1 END.".to_string(),
        real_literal,
        ieee,
    )
    .unwrap();
    assert_eq!(stack.records[0].get("count".to_string()), Some(&Value::Integer(2)));
    assert_eq!(stack.records[0].get("Count".to_string()), None);
}

#[test]
fn a_call_binds_by_position_and_restores_the_stack() {
    let text = "
PROGRAM Main;
VAR x, y : INTEGER;
PROCEDURE P(a : INTEGER; B : INTEGER);
VAR x : INTEGER;
BEGIN
    x := a - b;
    y := x
END;
BEGIN
    x := 10;
    P(7, 2 + 3);
    y := x + 1
END.";
    let stack = pascal::interpret(text.to_string(), real_literal, ieee).unwrap();
    assert_eq!(stack.len(), 1);
    assert_eq!(stack.records[0].get("x".to_string()), Some(&Value::Integer(10)));
    assert_eq!(stack.records[0].get("y".to_string()), Some(&Value::Integer(11)));
    assert_eq!(stack.records[0].get("a".to_string()), None);
}

#[test]
fn a_call_runs_its_body_in_a_frame_of_its_own() {
    let body = Block::new(
        Vec::new(),
        Node::Compound(Compound {
            children: vec![Node::Assign(
                id("seen"),
                op(TokenType::Assign, '='),
                Box::new(Node::BinOp(
                    Box::new(Node::Var(id("a"))),
                    op(TokenType::Minus, '-'),
                    Box::new(Node::Var(id("b"))),
                )),
            )],
        }),
    );
    let mut procedure = ProcedureSymbol::new(
        "p".to_string(),
        vec![
            VarSymbol::new("A".to_string(), Symbol::Builtin("INTEGER".to_string())),
            VarSymbol::new("b".to_string(), Symbol::Builtin("INTEGER".to_string())),
        ],
    );
    procedure.block_ast = Some(Box::new(body));
    let mut call = ProcedureCall::new(
        "p".to_string(),
        vec![Node::Num(Value::Integer(7)), Node::Num(Value::Integer(2))],
        Token::new(TokenType::ID, Value::String("p".to_string()), 1, 1),
    );
    call.proc_symbol = Some(procedure);
    let mut interpreter = Interpreter::new(ieee);
    // Without the pop, the frame of the call would stay for inspection.
    let mut probe = Node::Compound(Compound { children: vec![Node::ProcedureCall(call.clone())] });
    assert_eq!(interpreter.visit(&mut probe), Ok(Value::Absent));
    assert_eq!(interpreter.call_stack().len(), 0);
    // The body sees the arguments under the parameters' names.
    let failing = Block::new(
        Vec::new(),
        Node::Compound(Compound { children: vec![Node::Var(id("c"))] }),
    );
    let mut other = call.clone();
    other.proc_symbol.as_mut().unwrap().block_ast = Some(Box::new(failing));
    let mut node = Node::ProcedureCall(other);
    assert_eq!(interpreter.visit(&mut node), Err(EvaluationError::UndefinedVariable));
    let top = interpreter.call_stack().records.last().unwrap();
    assert_eq!(top.type_, ARType::Procedure);
    assert_eq!(top.nesting_level, 2);
    assert_eq!(top.get("a".to_string()), Some(&Value::Integer(7)));
    assert_eq!(top.get("b".to_string()), Some(&Value::Integer(2)));
}

#[test]
fn unresolved_calls_are_an_error() {
    let call = ProcedureCall::new(
        "p".to_string(),
        Vec::new(),
        Token::new(TokenType::ID, Value::String("p".to_string()), 1, 1),
    );
    let mut node = Node::ProcedureCall(call.clone());
    assert_eq!(Interpreter::new(ieee).visit(&mut node), Err(EvaluationError::UnresolvedCall));
    // A symbol without a body stands for a procedure that is running; here none is.
    let mut without_body = call;
    without_body.proc_symbol = Some(ProcedureSymbol::new("p".to_string(), Vec::new()));
    let mut node = Node::ProcedureCall(without_body.clone());
    assert_eq!(Interpreter::new(ieee).visit(&mut node), Err(EvaluationError::UnresolvedCall));
    // Inside the body of `p` the same call finds the body of `p` as it runs.
    let mut with_body = without_body.clone();
    with_body.proc_symbol.as_mut().unwrap().block_ast = Some(Box::new(Block::new(
        Vec::new(),
        Node::Compound(Compound { children: vec![Node::ProcedureCall(without_body.clone())] }),
    )));
    let mut node = Node::ProcedureCall(with_body.clone());
    assert_eq!(Interpreter::new(ieee).visit(&mut node), Err(EvaluationError::CallDepthExceeded));
    // A procedure of another level is another procedure.
    let mut other = without_body;
    other.proc_symbol.as_mut().unwrap().scope_level = 5;
    with_body.proc_symbol.as_mut().unwrap().block_ast = Some(Box::new(Block::new(
        Vec::new(),
        Node::Compound(Compound { children: vec![Node::ProcedureCall(other)] }),
    )));
    let mut node = Node::ProcedureCall(with_body);
    let mut interpreter = Interpreter::new(ieee);
    assert_eq!(interpreter.visit(&mut node), Err(EvaluationError::UnresolvedCall));
    assert_eq!(interpreter.call_stack().len(), 2);
}

#[test]
fn a_call_inside_a_procedure_runs() {
    let text = "
PROGRAM Main;
VAR g : INTEGER;
PROCEDURE Inner(a : INTEGER);
VAR seen : INTEGER;
BEGIN
    seen := a
END;
PROCEDURE Outer(a : INTEGER);
BEGIN
    Inner(a + 1);
    Inner(a + 2)
END;
BEGIN
    Outer(1);
    g := 1
END.";
    let stack = pascal::interpret(text.to_string(), real_literal, ieee).unwrap();
    assert_eq!(stack.len(), 1);
    assert_eq!(stack.records[0].name, "Main");
    assert_eq!(stack.records[0].get("g".to_string()), Some(&Value::Integer(1)));
    assert_eq!(stack.records[0].get("seen".to_string()), None);
}

#[test]
fn a_procedure_calls_one_that_is_declared_inside_it() {
    let text = "PROGRAM m; VAR g: INTEGER; PROCEDURE p; PROCEDURE r; BEGIN END; BEGIN r() END; BEGIN p(); g := 1 END.";
    let mut tree = parse(text);
    SemanticAnalyzer::new().visit(&mut tree).unwrap();
    let mut interpreter = Interpreter::new(ieee);
    assert_eq!(interpreter.visit(&mut tree), Ok(Value::Absent));
    let mut expected = CallStack::new();
    let mut record = ActivationRecord::new("m".to_string(), ARType::Program, 1);
    record.set("g".to_string(), Value::Integer(1));
    expected.push(record);
    assert_eq!(interpreter.call_stack(), &expected);
}

#[test]
fn calls_three_deep_leave_their_records_when_the_run_is_abandoned() {
    let text = "
PROGRAM Main;
VAR outside : INTEGER;
PROCEDURE First(a : INTEGER);
BEGIN
    a := a + outside
END;
PROCEDURE Second(b : INTEGER);
BEGIN
    First(b)
END;
PROCEDURE Third(c : INTEGER);
BEGIN
    Second(c)
END;
BEGIN
    Third(7)
END.";
    let mut tree = parse(text);
    SemanticAnalyzer::new().visit(&mut tree).unwrap();
    let mut interpreter = Interpreter::new(ieee);
    assert_eq!(interpreter.visit(&mut tree), Err(EvaluationError::UndefinedVariable));
    let names: Vec<&str> =
        interpreter.call_stack().records.iter().map(|record| record.name.as_str()).collect();
    assert_eq!(names, vec!["Main", "Third", "Second", "First"]);
    assert_eq!(interpreter.call_stack().records[3].get("a".to_string()), Some(&Value::Integer(7)));
}

#[test]
fn a_procedure_that_calls_itself_runs_into_the_limit() {
    let text = "
PROGRAM Main;
PROCEDURE Down(a : INTEGER);
BEGIN
    Down(a + 1)
END;
BEGIN
    Down(1)
END.";
    let mut tree = parse(text);
    SemanticAnalyzer::new().visit(&mut tree).unwrap();
    let mut interpreter = Interpreter::new(ieee);
    assert_eq!(interpreter.visit(&mut tree), Err(EvaluationError::CallDepthExceeded));
    let records = &interpreter.call_stack().records;
    assert_eq!(records.len(), 2 + CALL_DEPTH_LIMIT);
    assert_eq!(records[1].get("a".to_string()), Some(&Value::Integer(1)));
    assert_eq!(
        records[CALL_DEPTH_LIMIT + 1].get("a".to_string()),
        Some(&Value::Integer(CALL_DEPTH_LIMIT as i32 + 1))
    );
    assert_eq!(
        pascal::interpret(text.to_string(), real_literal, ieee),
        Err(Error::Evaluation(EvaluationError::CallDepthExceeded))
    );
}

#[test]
fn a_nested_procedure_calls_the_one_around_it() {
    let text = "
PROGRAM Main;
PROCEDURE Outer(a : INTEGER);
    PROCEDURE Inner(b : INTEGER);
    BEGIN
        Outer(b)
    END;
BEGIN
    Inner(a)
END;
BEGIN
    Outer(1)
END.";
    assert_eq!(
        pascal::interpret(text.to_string(), real_literal, ieee),
        Err(Error::Evaluation(EvaluationError::CallDepthExceeded))
    );
}

#[test]
fn a_procedure_does_not_see_the_variables_around_it() {
    let text = "
PROGRAM Main;
VAR x : INTEGER;
PROCEDURE P(a : INTEGER);
BEGIN
    a := x
END;
BEGIN
    x := 1;
    P(2)
END.";
    assert_eq!(
        pascal::interpret(text.to_string(), real_literal, ieee),
        Err(Error::Evaluation(EvaluationError::UndefinedVariable))
    );
}

#[test]
fn stack_operations() {
    let mut stack = CallStack::new();
    assert!(stack.pop().is_none());
    assert!(stack.peek().is_none());
    stack.push(ActivationRecord::new("one".to_string(), ARType::Program, 1));
    stack.push(ActivationRecord::new("two".to_string(), ARType::Procedure, 2));
    assert_eq!(stack.len(), 2);
    stack.peek().unwrap().set("k".to_string(), Value::Integer(1));
    stack.peek().unwrap().set("k".to_string(), Value::Integer(2));
    assert_eq!(stack.top().unwrap().get("k".to_string()), Some(&Value::Integer(2)));
    let top = stack.pop().unwrap();
    assert_eq!(top.name, "two");
    assert_eq!(top.get("k".to_string()), Some(&Value::Integer(2)));
    assert_eq!(stack.top().unwrap().name, "one");
    assert_eq!(stack.top().unwrap().get("k".to_string()), None);
}

#[test]
fn records_compare_as_maps_and_reals_as_numbers() {
    let mut one = ActivationRecord::new("r".to_string(), ARType::Program, 1);
    let mut other = ActivationRecord::new("r".to_string(), ARType::Program, 1);
    one.set("a".to_string(), float(0.0));
    one.set("b".to_string(), Value::Integer(1));
    other.set("b".to_string(), Value::Integer(1));
    other.set("a".to_string(), float(-0.0));
    assert_eq!(one, other);
    other.set("c".to_string(), Value::Absent);
    assert_ne!(one, other);
    assert_ne!(float(f32::NAN), float(f32::NAN));
    assert_ne!(float(1.0), float(2.0));
    assert_eq!(Real::from_bits(7).to_bits(), 7);
}

#[test]
fn every_visitor_walks_a_tree() {
    let mut tree = parse("PROGRAM p; VAR a : INTEGER; BEGIN a := 2 * 3 END.");
    let mut builder = SymbolTableBuilder { symtab: SymbolTable::new("global".to_string(), 1, None) };
    assert_eq!(walk(&mut builder, &mut tree), Ok(()));
    assert!(builder.symtab.lookup("a".to_string(), true).is_some());
    let mut analyzer = SemanticAnalyzer::new();
    assert_eq!(walk(&mut analyzer, &mut tree), Ok(()));
    let mut interpreter = Interpreter::new(ieee);
    assert_eq!(walk(&mut interpreter, &mut tree), Ok(Value::Absent));
    assert_eq!(
        interpreter.call_stack().records[0].get("a".to_string()),
        Some(&Value::Integer(6))
    );
    let mut undeclared = parse("PROGRAM p; BEGIN a := 1 END.");
    assert!(walk(&mut SemanticAnalyzer::new(), &mut undeclared).is_err());
}
