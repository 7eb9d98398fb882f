use pascal::ast::Node;
use pascal::dictionary::Dictionary;
use pascal::error::{ErrorCode, LexerError, ParserError, SemanticError};
use pascal::lexer::Lexer;
use pascal::parser::Parser;
use pascal::symbols::{ProcedureSymbol, Symbol, SymbolTable, SymbolTableBuilder, VarSymbol};
use pascal::tokens::{Real, Token, TokenType, Value};

fn real_literal(text: String) -> Option<Real> {
    text.parse::<f32>().ok().map(|x| Real::from_bits(x.to_bits()))
}

fn parse(text: &str) -> Node {
    let lexer = Lexer::new(text.to_string(), real_literal);
    let mut parser = Parser::new(lexer).unwrap();
    parser.parse().unwrap()
}

fn integer(name: &str) -> Symbol {
    Symbol::Var(Box::new(VarSymbol::new(name.to_string(), Symbol::Builtin("INTEGER".to_string()))))
}

#[test]
fn basic() {
    let text = "
PROGRAM Part11;
VAR
    x : INTEGER;
    y : REAL;

BEGIN

END.";
    let lexer = Lexer::new(text.to_string(), real_literal);
    let mut parser = Parser::new(lexer).unwrap();
    let mut tree = parser.parse().unwrap();
    let mut symtab_builder = SymbolTableBuilder {
        symtab: SymbolTable::new("global".to_string(), 1, None),
    };
    symtab_builder.visit(&mut tree).unwrap();

    let mut expected = SymbolTable::new(String::from("global"), 1, None);
    expected.insert(Symbol::Var(Box::new(VarSymbol::new(
        "x".to_string(),
        Symbol::Builtin("INTEGER".to_string()),
    ))));
    expected.insert(Symbol::Var(Box::new(VarSymbol::new(
        "y".to_string(),
        Symbol::Builtin("REAL".to_string()),
    ))));
    assert_eq!(expected, symtab_builder.symtab);
}

#[test]
#[should_panic(expected = "Use of undeclared variable: b")]
fn undeclared_var() {
    let text = "
PROGRAM Part11;
VAR
    a : INTEGER;

BEGIN
    a := 2 + b;
END.";
    let lexer = Lexer::new(text.to_string(), real_literal);
    let mut parser = Parser::new(lexer).unwrap();
    let mut tree = parser.parse().unwrap();
    let mut symtab_builder = SymbolTableBuilder {
        symtab: SymbolTable::new("global".to_string(), 1, None),
    };
    if let Err(error) = symtab_builder.visit(&mut tree) {
        panic!("Semantic Error: {}", error.message);
    }
}

#[test]
fn the_builder_reports_the_undeclared_name() {
    let mut tree = parse("PROGRAM p; VAR a : INTEGER; BEGIN a := 2 + b END.");
    let mut builder = SymbolTableBuilder { symtab: SymbolTable::new("global".to_string(), 1, None) };
    let error = builder.visit(&mut tree).unwrap_err();
    assert_eq!(error.error_code, ErrorCode::IDNotFound);
    assert_eq!(error.message, "Use of undeclared variable: b");
    assert_eq!(error.token.value.expect_string(), "b");
    let mut tree = parse("PROGRAM p; BEGIN c := 2 END.");
    let mut builder = SymbolTableBuilder { symtab: SymbolTable::new("global".to_string(), 1, None) };
    let error = builder.visit(&mut tree).unwrap_err();
    assert_eq!(error.message, "Use of undeclared variable: c");
}

#[test]
fn the_builder_passes_procedures_over() {
    let mut tree = parse(
        "PROGRAM p; VAR a : INTEGER; PROCEDURE q(x : INTEGER); BEGIN y := 1 END; BEGIN a := -a; q(zz) END.",
    );
    let mut builder = SymbolTableBuilder { symtab: SymbolTable::new("global".to_string(), 1, None) };
    assert_eq!(builder.visit(&mut tree), Ok(()));
    assert!(builder.symtab.lookup("a".to_string(), true).is_some());
    assert!(builder.symtab.lookup("q".to_string(), true).is_none());
    assert!(builder.symtab.lookup("x".to_string(), true).is_none());
}

#[test]
fn a_new_table_holds_the_builtin_types() {
    let table = SymbolTable::new("t".to_string(), 3, None);
    assert_eq!(table.scope_level, 3);
    assert_eq!(table.scope_name, "t");
    assert_eq!(table.lookup("INTEGER".to_string(), true), Some(&Symbol::Builtin("INTEGER".to_string())));
    assert_eq!(table.lookup("real".to_string(), true), Some(&Symbol::Builtin("REAL".to_string())));
    assert_eq!(table.lookup("Integer".to_string(), false), Some(&Symbol::Builtin("INTEGER".to_string())));
    assert_eq!(table.lookup("boolean".to_string(), false), None);
}

#[test]
fn lookup_ignores_case_and_walks_outward() {
    let mut outer = SymbolTable::new("outer".to_string(), 1, None);
    outer.insert(integer("Alpha"));
    outer.insert(integer("beta"));
    let mut inner = SymbolTable::new("inner".to_string(), 2, Some(outer));
    inner.insert(Symbol::Procedure(ProcedureSymbol::new("BETA".to_string(), Vec::new())));
    assert_eq!(inner.lookup("ALPHA".to_string(), false), Some(&integer("Alpha")));
    assert_eq!(inner.lookup("alpha".to_string(), true), None);
    assert_eq!(
        inner.lookup("beta".to_string(), false),
        Some(&Symbol::Procedure(ProcedureSymbol::new("BETA".to_string(), Vec::new())))
    );
    assert_eq!(inner.lookup("gamma".to_string(), false), None);
    assert_eq!(inner.enclosing_scope.as_ref().unwrap().lookup("Beta".to_string(), true), Some(&integer("beta")));
}

#[test]
fn insert_replaces_and_keys_are_taken_as_given() {
    let mut table = SymbolTable::new("t".to_string(), 1, None);
    table.insert(integer("N"));
    table.insert(Symbol::Builtin("n".to_string()));
    assert_eq!(table.lookup("N".to_string(), true), Some(&Symbol::Builtin("n".to_string())));
    assert_eq!(table.lookup_key(&"n".to_string(), true), Some(&Symbol::Builtin("n".to_string())));
    assert_eq!(table.lookup_key(&"N".to_string(), true), None);
    table.insert_under("Key".to_string(), integer("v"));
    assert_eq!(table.lookup_key(&"Key".to_string(), false), Some(&integer("v")));
    assert_eq!(table.lookup("Key".to_string(), false), None);
    assert_eq!(integer("v").name(), "v");
    assert_eq!(Symbol::Procedure(ProcedureSymbol::new("p".to_string(), Vec::new())).name(), "p");
}

#[test]
fn tables_compare_as_maps() {
    let mut one = SymbolTable::new("t".to_string(), 1, None);
    let mut other = SymbolTable::new("t".to_string(), 1, None);
    one.insert(integer("a"));
    one.insert(integer("b"));
    other.insert(integer("b"));
    other.insert(integer("a"));
    assert_eq!(one, other);
    other.insert(integer("c"));
    assert_ne!(one, other);
}

#[test]
fn a_dictionary_is_a_map() {
    let mut dictionary: Dictionary<i32> = Dictionary::new();
    assert_eq!(dictionary.len(), 0);
    assert_eq!(dictionary.keys(), Vec::<String>::new());
    dictionary.insert("b".to_string(), 1);
    dictionary.insert("a".to_string(), 2);
    dictionary.insert("b".to_string(), 3);
    assert_eq!(dictionary.len(), 2);
    assert_eq!(dictionary.keys(), vec!["b".to_string(), "a".to_string()]);
    assert_eq!(dictionary.get(&"b".to_string()), Some(&3));
    assert_eq!(dictionary.get(&"a".to_string()), Some(&2));
    assert_eq!(dictionary.get(&"c".to_string()), None);
    assert!(dictionary.contains_key(&"a".to_string()));
    assert!(!dictionary.contains_key(&"A".to_string()));
    let mut other = Dictionary::new();
    other.insert("a".to_string(), 2);
    assert!(dictionary != other);
    other.insert("b".to_string(), 3);
    assert!(dictionary == other);
    other.insert("b".to_string(), 4);
    assert!(dictionary != other);
}

#[test]
fn errors_are_handed_on() {
    let token = Token::new(TokenType::EOF, Value::Absent, 1, 1);
    let error = LexerError::new("m".to_string());
    assert_eq!(error.message, "m");
    assert_eq!(error.throw::<u8>(), Err(LexerError::new("m".to_string())));
    let error = ParserError::new("m".to_string(), ErrorCode::UnexpectedToken, token.clone());
    assert_eq!((error.message.as_str(), error.error_code, &error.token), ("m", ErrorCode::UnexpectedToken, &token));
    assert_eq!(error.throw::<()>().unwrap_err().message, "m");
    let error = SemanticError::new("m".to_string(), ErrorCode::DuplicateID, token.clone());
    assert_eq!((error.message.as_str(), error.error_code, &error.token), ("m", ErrorCode::DuplicateID, &token));
    assert_eq!(error.throw::<()>().unwrap_err().error_code, ErrorCode::DuplicateID);
    assert_eq!(ErrorCode::UnexpectedToken.message(), "Unexpected token");
    assert_eq!(ErrorCode::IDNotFound.message(), "Identifier not found");
    assert_eq!(ErrorCode::DuplicateID.message(), "Duplicate id found");
    assert_eq!(ErrorCode::WrongParamsNum.message(), "Wrong number of params");
}
