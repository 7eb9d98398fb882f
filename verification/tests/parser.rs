use pascal::ast::{Block, Compound, Node, Param, ProcedureCall, Type, Var};
use pascal::lexer::Lexer;
use pascal::parser::Parser;
use pascal::tokens::{Real, Token, TokenType, Value};

fn real_literal(text: String) -> Option<Real> {
    text.parse::<f32>().ok().map(|x| Real::from_bits(x.to_bits()))
}

fn parse(text: &str) -> Node {
    let lexer = Lexer::new(text.to_string(), real_literal);
    let mut parser = Parser::new(lexer).unwrap();
    parser.parse().unwrap()
}

fn statements(text: &str) -> Vec<Node> {
    let Node::Program(_, block) = parse(text) else { panic!("no program") };
    let Node::Compound(compound) = block.compound_statement else { panic!("no statements") };
    compound.children
}

/// The tree without the places of its tokens.
fn shape(node: &Node) -> String {
    match node {
        Node::BinOp(left, op, right) => format!("({} {:?} {})", shape(left), op.type_, shape(right)),
        Node::Num(Value::Integer(n)) => format!("{n}"),
        Node::Num(Value::Float(r)) => format!("{:?}", f32::from_bits(r.to_bits())),
        Node::Num(other) => format!("{other:?}"),
        Node::UnaryOp(op, operand) => format!("({:?} {})", op.type_, shape(operand)),
        Node::Compound(compound) => {
            format!("[{}]", compound.children.iter().map(shape).collect::<Vec<_>>().join("; "))
        }
        Node::Assign(target, _, right) => format!("{} := {}", target.value.expect_string(), shape(right)),
        Node::Var(var) => var.value.expect_string(),
        Node::Program(name, block) => format!("program {name} {}", block_shape(block)),
        Node::VarDecl(var, type_node) => {
            format!("var {} : {}", var.value.expect_string(), type_node.value.expect_string())
        }
        Node::ProcedureDecl(name, block, params) => format!(
            "procedure {name}({}) {}",
            params
                .iter()
                .map(|p| format!("{} : {}", p.var_node.value.expect_string(), p.type_node.value.expect_string()))
                .collect::<Vec<_>>()
                .join(", "),
            block_shape(block)
        ),
        Node::ProcedureCall(call) => format!(
            "{}({}){}",
            call.proc_name,
            call.actual_params.iter().map(shape).collect::<Vec<_>>().join(", "),
            if call.proc_symbol.is_some() { "!" } else { "" }
        ),
        Node::NoOp => "noop".to_string(),
    }
}

fn block_shape(block: &Block) -> String {
    format!(
        "{{{} | {}}}",
        block.declarations.iter().map(shape).collect::<Vec<_>>().join("; "),
        shape(&block.compound_statement)
    )
}

#[test]
fn precedence_and_associativity() {
    let found = statements("PROGRAM p; BEGIN a := 2 * 7 + 3; b := 1 - 2 - 3; c := 1 + 2 * 3 DIV 4 / 5; d := -(1 + 2) * + - 3 END.");
    assert_eq!(shape(&found[0]), "a := ((2 Mul 7) Plus 3)");
    assert_eq!(shape(&found[1]), "b := ((1 Minus 2) Minus 3)");
    assert_eq!(shape(&found[2]), "c := (1 Plus (((2 Mul 3) IntegerDiv 4) FloatDiv 5))");
    assert_eq!(shape(&found[3]), "d := ((Minus (1 Plus 2)) Mul (Plus (Minus 3)))");
}

#[test]
fn a_whole_program() {
    let tree = parse(
        "PROGRAM Main;
VAR a, b : INTEGER;
    y : REAL;
PROCEDURE First(x, z : INTEGER; r : REAL);
VAR k : INTEGER;
    PROCEDURE Inner;
    BEGIN
    END;
BEGIN
    k := x
END;
PROCEDURE Last();
BEGIN
END;
BEGIN { Main }
    BEGIN
        a := 1;
    END;
    First(a, 2 + b, 1.5);
    Last();
    y := 2.5
END.",
    );
    assert_eq!(
        shape(&tree),
        "program Main {var a : INTEGER; var b : INTEGER; var y : REAL; \
         procedure First(x : INTEGER, z : INTEGER, r : REAL) {var k : INTEGER; procedure Inner() { | [noop]} | [k := x]}; \
         procedure Last() { | [noop]} | \
         [[a := 1; noop]; First(a, (2 Plus b), 1.5); Last(); y := 2.5]}"
    );
}

#[test]
fn nodes_keep_their_tokens() {
    let found = statements("PROGRAM p; BEGIN\n  ab := c + 1;\n  q(2) END.");
    let Node::Assign(target, assign, right) = &found[0] else { panic!("no assignment") };
    assert_eq!(target.token, Token::new(TokenType::ID, Value::String("ab".to_string()), 2, 5));
    assert_eq!(assign, &Token::new(TokenType::Assign, Value::String(":=".to_string()), 2, 8));
    let Node::BinOp(left, op, _) = &**right else { panic!("no sum") };
    assert_eq!(op, &Token::new(TokenType::Plus, Value::Char('+'), 2, 12));
    assert_eq!(**left, Node::Var(Var::new(Token::new(TokenType::ID, Value::String("c".to_string()), 2, 10))));
    let Node::ProcedureCall(call) = &found[1] else { panic!("no call") };
    assert_eq!(call.token, Token::new(TokenType::ID, Value::String("q".to_string()), 3, 4));
    assert_eq!(call.proc_symbol, None);
}

#[test]
fn a_call_needs_its_parenthesis_at_once() {
    let lexer = Lexer::new("PROGRAM p; BEGIN q (1) END.".to_string(), real_literal);
    assert!(Parser::new(lexer).unwrap().parse().is_err());
}

#[test]
fn builders_of_nodes() {
    let token = Token::new(TokenType::ID, Value::String("n".to_string()), 1, 2);
    let var = Var::new(token.clone());
    assert_eq!(var.token, token);
    assert_eq!(var.value, Value::String("n".to_string()));
    let type_node = Type::new(Token::new(TokenType::Real, Value::String("REAL".to_string()), 1, 1));
    assert_eq!(type_node.value, Value::String("REAL".to_string()));
    let param = Param::new(var.clone(), type_node.clone());
    assert_eq!(param.var_node, var);
    assert_eq!(param.type_node, type_node);
    let mut compound = Compound::new();
    assert!(compound.children.is_empty());
    compound.push_child(Node::NoOp);
    compound.push_child(Node::Var(var.clone()));
    assert_eq!(compound.children, vec![Node::NoOp, Node::Var(var.clone())]);
    let block = Block::new(vec![Node::NoOp], Node::Compound(compound.clone()));
    assert_eq!(block.declarations, vec![Node::NoOp]);
    assert_eq!(block.compound_statement, Node::Compound(compound.clone()));
    let call = ProcedureCall::new("q".to_string(), vec![Node::NoOp], token.clone());
    assert_eq!(call.proc_name, "q");
    assert_eq!(call.actual_params, vec![Node::NoOp]);
    assert_eq!(call.token, token);
    assert_eq!(call.proc_symbol, None);
    let program = Node::Program("p".to_string(), Box::new(block));
    assert_eq!(program.clone(), program);
    assert_eq!(shape(&program.clone()), "program p {noop | [noop; n]}");
}

#[test]
fn a_parser_starts_where_its_lexer_stands() {
    let mut lexer = Lexer::new("junk ? PROGRAM p; BEGIN a := 1 END.".to_string(), real_literal);
    assert_eq!(lexer.get_next_token().unwrap().type_, TokenType::ID);
    lexer.skip_whitespace();
    lexer.advance();
    let mut parser = Parser::new(lexer).unwrap();
    assert_eq!(shape(&parser.parse().unwrap()), "program p { | [a := 1]}");
}
