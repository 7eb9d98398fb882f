use pascal::ast::Node;
use pascal::error::{Error, ErrorCode, SemanticError};
use pascal::interpreter::RealOperator;
use pascal::lexer::Lexer;
use pascal::parser::Parser;
use pascal::semantic_analyzer::SemanticAnalyzer;
use pascal::symbols::Symbol;
use pascal::tokens::{Real, TokenType};

fn real_literal(text: String) -> Option<Real> {
    text.parse::<f32>().ok().map(|x| Real::from_bits(x.to_bits()))
}

fn never(_: RealOperator, _: Real, _: Real) -> Real {
    panic!("no real arithmetic is expected")
}

fn parse(text: &str) -> Node {
    let lexer = Lexer::new(text.to_string(), real_literal);
    let mut parser = Parser::new(lexer).unwrap();
    parser.parse().unwrap()
}

fn analyze(text: &str) -> Result<Node, SemanticError> {
    let mut tree = parse(text);
    SemanticAnalyzer::new().visit(&mut tree).map(|_| tree)
}

fn rejected(text: &str) -> SemanticError {
    analyze(text).unwrap_err()
}

#[test]
fn an_undeclared_variable_is_rejected() {
    let error = rejected("PROGRAM p; VAR a : INTEGER; BEGIN a := 2 + b END.");
    assert_eq!(error.error_code, ErrorCode::IDNotFound);
    assert_eq!(error.message, "Identifier not found");
    assert_eq!(error.token.type_, TokenType::ID);
    assert_eq!(error.token.value.expect_string(), "b");
    let error = rejected("PROGRAM p; BEGIN a := 2 END.");
    assert_eq!(error.error_code, ErrorCode::IDNotFound);
    assert_eq!(error.token.value.expect_string(), "a");
    let error = rejected("PROGRAM p; VAR a : INTEGER; BEGIN a := - - b END.");
    assert_eq!(error.error_code, ErrorCode::IDNotFound);
    let error = rejected("PROGRAM p; VAR a : INTEGER; BEGIN BEGIN a := 1; BEGIN a := (c) END END END.");
    assert_eq!(error.token.value.expect_string(), "c");
}

#[test]
fn nothing_runs_when_the_analysis_fails() {
    let result = pascal::interpret(
        "PROGRAM p; VAR a : INTEGER; BEGIN a := 1 DIV 0; a := b END.".to_string(),
        real_literal,
        never,
    );
    assert!(matches!(result, Err(Error::Semantic(error)) if error.error_code == ErrorCode::IDNotFound));
}

#[test]
fn a_name_declared_twice_is_rejected() {
    let error = rejected("PROGRAM p; VAR a : INTEGER; A : REAL; BEGIN END.");
    assert_eq!(error.error_code, ErrorCode::DuplicateID);
    assert_eq!(error.message, "Duplicate id found");
    assert_eq!(error.token.value.expect_string(), "A");
    let error = rejected("PROGRAM p; VAR a, b, a : INTEGER; BEGIN END.");
    assert_eq!(error.error_code, ErrorCode::DuplicateID);
    let error = rejected("PROGRAM p; PROCEDURE q(a : INTEGER); VAR a : REAL; BEGIN END; BEGIN END.");
    assert_eq!(error.error_code, ErrorCode::DuplicateID);
}

#[test]
fn a_nested_scope_may_declare_a_name_again() {
    let tree = analyze(
        "PROGRAM p; VAR a : INTEGER; PROCEDURE q(b : INTEGER); VAR a : REAL; BEGIN a := b END; BEGIN a := 1 END.",
    );
    assert!(tree.is_ok());
    assert!(analyze("PROGRAM p; VAR p : INTEGER; q : REAL; PROCEDURE q; BEGIN END; BEGIN END.").is_ok());
}

#[test]
fn a_call_with_the_wrong_number_of_arguments_is_rejected() {
    let error = rejected("PROGRAM p; PROCEDURE q(a, b : INTEGER); BEGIN END; BEGIN q(1) END.");
    assert_eq!(error.error_code, ErrorCode::WrongParamsNum);
    assert_eq!(error.message, "Wrong number of params");
    assert_eq!(error.token.value.expect_string(), "q");
    let error = rejected("PROGRAM p; PROCEDURE q; BEGIN END; BEGIN q(1) END.");
    assert_eq!(error.error_code, ErrorCode::WrongParamsNum);
    let error = rejected("PROGRAM p; PROCEDURE q(a : INTEGER); BEGIN END; BEGIN Q() END.");
    assert_eq!(error.error_code, ErrorCode::WrongParamsNum);
}

#[test]
fn a_call_of_what_is_no_procedure_is_rejected() {
    let error = rejected("PROGRAM p; BEGIN q(1) END.");
    assert_eq!(error.error_code, ErrorCode::IDNotFound);
    assert_eq!(error.token.value.expect_string(), "q");
    let error = rejected("PROGRAM p; VAR q : INTEGER; BEGIN q(1) END.");
    assert_eq!(error.error_code, ErrorCode::IDNotFound);
    let error = rejected("PROGRAM p; PROCEDURE q(a : INTEGER); BEGIN END; BEGIN q(b) END.");
    assert_eq!(error.error_code, ErrorCode::IDNotFound);
    assert_eq!(error.token.value.expect_string(), "b");
}

#[test]
fn a_call_gets_a_copy_of_the_procedure() {
    let tree = analyze(
        "PROGRAM p; VAR x : INTEGER; PROCEDURE Q(a : INTEGER; b : REAL); BEGIN a := 1 END; BEGIN q(1, 2.5) END.",
    )
    .unwrap();
    let Node::Program(_, block) = tree else { panic!("no program") };
    let Node::ProcedureDecl(name, body, _) = &block.declarations[1] else { panic!("no procedure") };
    let Node::Compound(statements) = &block.compound_statement else { panic!("no statements") };
    let Node::ProcedureCall(call) = &statements.children[0] else { panic!("no call") };
    let symbol = call.proc_symbol.as_ref().unwrap();
    assert_eq!(&symbol.name, name);
    assert_eq!(name, "Q");
    assert_eq!(symbol.formal_params.len(), 2);
    assert_eq!(symbol.formal_params[0].name, "a");
    assert_eq!(symbol.formal_params[0].type_, Symbol::Builtin("INTEGER".to_string()));
    assert_eq!(symbol.formal_params[1].name, "b");
    assert_eq!(symbol.formal_params[1].type_, Symbol::Builtin("REAL".to_string()));
    assert_eq!(symbol.block_ast.as_ref().unwrap(), body);
}

#[test]
fn a_procedure_may_call_itself_and_what_is_around_it() {
    let tree = analyze(
        "PROGRAM p; PROCEDURE outer(a : INTEGER); PROCEDURE inner(b : INTEGER); BEGIN inner(b); outer(b) END; BEGIN outer(a); inner(a) END; BEGIN outer(1) END.",
    );
    assert!(tree.is_ok());
    let error = rejected(
        "PROGRAM p; PROCEDURE outer(a : INTEGER); PROCEDURE inner(b : INTEGER); BEGIN END; BEGIN END; BEGIN inner(1) END.",
    );
    assert_eq!(error.error_code, ErrorCode::IDNotFound);
    let error = rejected(
        "PROGRAM p; PROCEDURE first; BEGIN second() END; PROCEDURE second; BEGIN END; BEGIN END.",
    );
    assert_eq!(error.error_code, ErrorCode::IDNotFound);
}

#[test]
fn the_analyzer_returns_to_the_scope_it_started_in() {
    let mut analyzer = SemanticAnalyzer::new();
    let before = format!("{:?}", analyzer.current_scope());
    let mut tree = parse("PROGRAM p; VAR a : INTEGER; PROCEDURE q(b : REAL); BEGIN END; BEGIN q(1.5) END.");
    assert_eq!(analyzer.visit(&mut tree), Ok(()));
    assert_eq!(format!("{:?}", analyzer.current_scope()), before);
    assert_eq!(analyzer.current_scope().scope_level, 1);
    assert_eq!(analyzer.current_scope().scope_name, "global");
    assert!(analyzer.current_scope().lookup("a".to_string(), false).is_none());
}

#[test]
fn names_are_looked_up_without_regard_to_case() {
    assert!(analyze("PROGRAM p; VAR Total : integer; BEGIN TOTAL := total + 1 END.").is_ok());
    assert!(analyze("PROGRAM p; PROCEDURE Show(n : Real); BEGIN END; BEGIN SHOW(1.0) END.").is_ok());
}

#[test]
fn the_copy_on_a_call_holds_the_body_with_its_calls_resolved() {
    let tree = analyze(
        "PROGRAM p; PROCEDURE inner(a : INTEGER); BEGIN END; PROCEDURE outer; BEGIN inner(1); outer() END; BEGIN outer() END.",
    )
    .unwrap();
    let Node::Program(_, block) = tree else { panic!("no program") };
    let Node::Compound(statements) = &block.compound_statement else { panic!("no statements") };
    let Node::ProcedureCall(call) = &statements.children[0] else { panic!("no call") };
    let outer = call.proc_symbol.as_ref().unwrap();
    assert_eq!(outer.scope_level, 3);
    let Node::Compound(body) = &outer.block_ast.as_ref().unwrap().compound_statement else {
        panic!("no body")
    };
    let Node::ProcedureCall(first) = &body.children[0] else { panic!("no call") };
    let inner = first.proc_symbol.as_ref().unwrap();
    assert_eq!(inner.name, "inner");
    assert_eq!(inner.formal_params.len(), 1);
    assert!(inner.block_ast.is_some());
    // A call of the procedure from inside its own body carries the symbol without the body.
    let Node::ProcedureCall(again) = &body.children[1] else { panic!("no call") };
    let itself = again.proc_symbol.as_ref().unwrap();
    assert_eq!(itself.name, "outer");
    assert_eq!(itself.scope_level, 3);
    assert_eq!(itself.block_ast, None);
}

#[test]
fn a_rejected_call_or_declaration_changes_nothing() {
    let mut tree = parse("PROGRAM p; PROCEDURE q(a : INTEGER); BEGIN END; BEGIN q() END.");
    let Node::Program(_, block) = &mut tree else { panic!("no program") };
    let mut analyzer = SemanticAnalyzer::new();
    assert_eq!(analyzer.visit(&mut block.declarations[0]), Ok(()));
    let scope = format!("{:?}", analyzer.current_scope());
    let Node::Compound(statements) = &mut block.compound_statement else { panic!("no statements") };
    let before = statements.children[0].clone();
    let error = analyzer.visit(&mut statements.children[0]).unwrap_err();
    assert_eq!(error.error_code, ErrorCode::WrongParamsNum);
    assert_eq!(statements.children[0], before);
    assert_eq!(format!("{:?}", analyzer.current_scope()), scope);
    let mut unknown = parse("PROGRAM p; BEGIN r(1) END.");
    let Node::Program(_, block) = &mut unknown else { panic!("no program") };
    let Node::Compound(statements) = &mut block.compound_statement else { panic!("no statements") };
    let before = statements.children[0].clone();
    assert_eq!(analyzer.visit(&mut statements.children[0]).unwrap_err().error_code, ErrorCode::IDNotFound);
    assert_eq!(statements.children[0], before);
    assert_eq!(format!("{:?}", analyzer.current_scope()), scope);
    let mut twice = parse("PROGRAM p; VAR q : INTEGER; BEGIN END.");
    let Node::Program(_, block) = &mut twice else { panic!("no program") };
    assert_eq!(analyzer.visit(&mut block.declarations[0]).unwrap_err().error_code, ErrorCode::DuplicateID);
    assert_eq!(format!("{:?}", analyzer.current_scope()), scope);
}
