use pascal::error::{Error, ErrorCode};
use pascal::lexer::{alphabetic, keyword, numeric, whitespace, word, Lexer};
use pascal::parser::Parser;
use pascal::tokens::{Real, Token, TokenType, Value};

fn real_literal(text: String) -> Option<Real> {
    text.parse::<f32>().ok().map(|x| Real::from_bits(x.to_bits()))
}

fn tokens(text: &str) -> Vec<Token> {
    let mut lexer = Lexer::new(text.to_string(), real_literal);
    let mut found = Vec::new();
    loop {
        let token = lexer.get_next_token().unwrap();
        let last = token.type_ == TokenType::EOF;
        found.push(token);
        if last {
            return found;
        }
    }
}

fn types(text: &str) -> Vec<TokenType> {
    tokens(text).into_iter().map(|token| token.type_).collect()
}

fn lexer_error(text: &str) -> String {
    let mut lexer = Lexer::new(text.to_string(), real_literal);
    loop {
        match lexer.get_next_token() {
            Ok(token) => assert_ne!(token.type_, TokenType::EOF),
            Err(error) => return error.message,
        }
    }
}

fn parser_error(text: &str) -> Error {
    let lexer = Lexer::new(text.to_string(), real_literal);
    match Parser::new(lexer) {
        Ok(mut parser) => parser.parse().unwrap_err(),
        Err(error) => error,
    }
}

#[test]
fn every_kind_of_token() {
    assert_eq!(
        types("PROGRAM p; VAR a : INTEGER; b : REAL; PROCEDURE q(x); BEGIN a := 1 + 2.5 - 3 * 4 / 5 DIV 6, END."),
        vec![
            TokenType::Program, TokenType::ID, TokenType::Semi, TokenType::Var, TokenType::ID,
            TokenType::Colon, TokenType::Integer, TokenType::Semi, TokenType::ID, TokenType::Colon,
            TokenType::Real, TokenType::Semi, TokenType::Procedure, TokenType::ID,
            TokenType::LeftParen, TokenType::ID, TokenType::RightParen, TokenType::Semi,
            TokenType::Begin, TokenType::ID, TokenType::Assign, TokenType::IntegerConst,
            TokenType::Plus, TokenType::RealConst, TokenType::Minus, TokenType::IntegerConst,
            TokenType::Mul, TokenType::IntegerConst, TokenType::FloatDiv, TokenType::IntegerConst,
            TokenType::IntegerDiv, TokenType::IntegerConst, TokenType::Comma, TokenType::End,
            TokenType::Dot, TokenType::EOF,
        ]
    );
}

#[test]
fn tokens_carry_their_values() {
    let found = tokens("x1 := 42 + 2.5;");
    assert_eq!(found[0].value, Value::String("x1".to_string()));
    assert_eq!(found[1].value, Value::String(":=".to_string()));
    assert_eq!(found[2].value, Value::Integer(42));
    assert_eq!(found[3].value, Value::Char('+'));
    assert_eq!(found[4].value, Value::Float(Real::from_bits(2.5f32.to_bits())));
    assert_eq!(found[5].value, Value::Char(';'));
    assert_eq!(found[6].value, Value::Absent);
    assert_eq!(tokens("007")[0].value, Value::Integer(7));
    assert_eq!(tokens("2147483647")[0].value, Value::Integer(i32::MAX));
    assert_eq!(tokens("5.")[0].value, Value::Float(Real::from_bits(5.0f32.to_bits())));
    assert_eq!(tokens(":")[0].type_, TokenType::Colon);
    assert_eq!(tokens(":")[0].value, Value::Char(':'));
}

#[test]
fn reserved_words_in_any_case() {
    assert_eq!(
        types("begin End dIv program Integer real VAR procedure beginning"),
        vec![
            TokenType::Begin, TokenType::End, TokenType::IntegerDiv, TokenType::Program,
            TokenType::Integer, TokenType::Real, TokenType::Var, TokenType::Procedure,
            TokenType::ID, TokenType::EOF,
        ]
    );
    assert_eq!(tokens("bEgIn")[0].value, Value::String("bEgIn".to_string()));
    assert_eq!(keyword(&"BEGIN".to_string()), Some(TokenType::Begin));
    assert_eq!(keyword(&"DIV".to_string()), Some(TokenType::IntegerDiv));
    assert_eq!(keyword(&"begin".to_string()), None);
    assert_eq!(keyword(&"".to_string()), None);
}

#[test]
fn white_space_and_comments_are_passed_over() {
    assert_eq!(types(" \t\r\n{ a comment }\n  { another } x { open"), vec![TokenType::ID, TokenType::EOF]);
    assert_eq!(types(""), vec![TokenType::EOF]);
    assert_eq!(types("{}"), vec![TokenType::EOF]);
    assert_eq!(types("a{b}c"), vec![TokenType::ID, TokenType::ID, TokenType::EOF]);
}

#[test]
fn tokens_know_where_they_end() {
    let found = tokens("ab :=\n  12;\n");
    assert_eq!((found[0].lineno, found[0].column), (1, 3));
    assert_eq!((found[1].lineno, found[1].column), (1, 6));
    assert_eq!((found[2].lineno, found[2].column), (2, 5));
    assert_eq!((found[3].lineno, found[3].column), (2, 6));
    assert_eq!((found[4].lineno, found[4].column), (3, 0));
}

#[test]
fn what_is_no_token_is_an_error() {
    assert_eq!(lexer_error("a := 1;\n  ? b"), "Lexer error on `?` line: 2 column: 3");
    assert_eq!(lexer_error("}"), "Lexer error on `}` line: 1 column: 1");
    assert_eq!(lexer_error("x := 99999999999"), "Lexer error on `99999999999` line: 1 column: 16");
    assert_eq!(lexer_error("2147483648 "), "Lexer error on `2147483648` line: 1 column: 11");
    assert_eq!(lexer_error("\n\n\n\n\n\n\n\n\n\n\n!"), "Lexer error on `!` line: 12 column: 1");
}

#[test]
fn bytes_are_read_as_characters() {
    // The two bytes of the letter are read as two characters, both letters.
    let mut lexer = Lexer::new("\u{e9}".to_string(), real_literal);
    let found = lexer.get_next_token().unwrap();
    assert_eq!(found.type_, TokenType::ID);
    assert_eq!(found.value, Value::String("\u{c3}".to_string()));
    assert!(lexer_error("a \u{e9}").starts_with("Lexer error on `\u{a9}`"));
    // A superscript two is numeric, so that it may stand in a word.
    assert_eq!(tokens("\u{b2}")[0].value, Value::String("\u{c2}\u{b2}".to_string()));
}

#[test]
fn classes_of_characters() {
    for b in 0..=255u8 {
        let c = b as char;
        assert_eq!(whitespace(b), c.is_whitespace(), "white space {b}");
        assert_eq!(numeric(b), c.is_numeric(), "numeric {b}");
        assert_eq!(alphabetic(b), c.is_alphabetic(), "alphabetic {b}");
        assert_eq!(word(b), c.is_alphanumeric() || c == '_', "word {b}");
    }
}

#[test]
fn the_lexer_looks_one_character_ahead() {
    let mut lexer = Lexer::new("a:=".to_string(), real_literal);
    assert_eq!(lexer.current_char(), Some('a'));
    assert_eq!(lexer.peek(), Some(':'));
    lexer.advance();
    lexer.advance();
    assert_eq!(lexer.current_char(), Some('='));
    assert_eq!(lexer.peek(), None);
    lexer.advance();
    assert_eq!(lexer.current_char(), None);
    lexer.advance();
    assert_eq!(lexer.current_char(), None);
    let mut lexer = Lexer::new("  \n x { y } z".to_string(), real_literal);
    lexer.skip_whitespace();
    assert_eq!(lexer.current_char(), Some('x'));
    lexer.skip_comment();
    assert_eq!(lexer.current_char(), Some(' '));
    assert_eq!(lexer.id().type_, TokenType::ID);
    assert_eq!(lexer.number().unwrap_err().message, "Lexer error on `` line: 2 column: 9");
}

#[test]
fn a_token_out_of_place_is_an_error() {
    let unexpected = |text: &str| match parser_error(text) {
        Error::Parser(error) => {
            assert_eq!(error.message, "Unexpected token");
            assert_eq!(error.error_code, ErrorCode::UnexpectedToken);
            error.token
        }
        other => panic!("{other:?}"),
    };
    assert_eq!(unexpected("BEGIN END.").type_, TokenType::Begin);
    assert_eq!(unexpected("PROGRAM p; BEGIN END").type_, TokenType::EOF);
    assert_eq!(unexpected("PROGRAM p; BEGIN END. x").type_, TokenType::ID);
    assert_eq!(unexpected("PROGRAM p; BEGIN a := END.").type_, TokenType::End);
    assert_eq!(unexpected("PROGRAM p; BEGIN a := (1 END.").type_, TokenType::End);
    assert_eq!(unexpected("PROGRAM p; VAR a : BOOLEAN; BEGIN END.").value, Value::String("BOOLEAN".to_string()));
    assert_eq!(unexpected("PROGRAM p; VAR a  INTEGER; BEGIN END.").type_, TokenType::Integer);
    assert_eq!(unexpected("PROGRAM p; PROCEDURE q(a : INTEGER) BEGIN END; BEGIN END.").type_, TokenType::Begin);
    assert_eq!(unexpected("PROGRAM p; BEGIN q(1, ) END.").type_, TokenType::RightParen);
    assert_eq!(unexpected("PROGRAM p; BEGIN a := 2.5 3.5 END.").value, Value::Float(Real::from_bits(3.5f32.to_bits())));
    assert!(matches!(parser_error("PROGRAM p; BEGIN a := 1 ? END."), Error::Lexer(_)));
    assert!(matches!(parser_error("?"), Error::Lexer(_)));
}

#[test]
fn a_statement_after_a_statement_needs_a_semicolon() {
    match parser_error("PROGRAM p; BEGIN a := 1 b := 2 END.") {
        Error::Parser(error) => {
            assert_eq!(error.error_code, ErrorCode::DuplicateID);
            assert_eq!(error.token.value, Value::String("b".to_string()));
        }
        other => panic!("{other:?}"),
    }
}
