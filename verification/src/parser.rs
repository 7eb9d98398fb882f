//! The parser: from tokens to the syntax tree, by recursive descent.

use vstd::prelude::*;
use crate::ast::{
    all_well_formed, block_well_formed, identifier, nodes_view, push_node, well_formed, Block,
    BlockView, Compound, CompoundView, Node, NodeView, Param, ParamView, ProcedureCall,
    ProcedureCallView, Type, TypeView, Var, VarView,
};
use crate::error::{rejection, Error, ErrorCode, ErrorView, ParserError};
use crate::lexer::{carries_text, current, lemma_token_moves_on, next_token, Lexer, Position};
use crate::tokens::{Real, Token, TokenType, TokenView};

verus! {

/// What the parser reads: the bytes of the text and what the reader makes
/// of a real literal.
pub struct Source {
    pub literals: spec_fn(Seq<char>) -> Option<Real>,
    pub text: Seq<u8>,
}

/// Where the parser stands: the token it looks at and the lexer's position,
/// which is past that token.
pub struct Cursor {
    pub token: TokenView,
    pub at: Position,
}

/// How much is left to parse: the bytes that the lexer has not read, and one
/// more while the token that the parser looks at is not `EOF`.
pub open spec fn remaining(source: Source, cursor: Cursor) -> nat {
    let unread = if cursor.at.pos <= source.text.len() {
        (source.text.len() - cursor.at.pos) as nat
    } else {
        0
    };
    if cursor.token.type_ == TokenType::EOF {
        unread
    } else {
        unread + 1
    }
}

/// The cursor at the first token that the text holds from `at` on.
pub open spec fn start(source: Source, at: Position) -> Result<Cursor, ErrorView> {
    match next_token(source.literals, source.text, at) {
        Ok((token, after)) => Ok(Cursor { token, at: after }),
        Err(message) => Err(ErrorView::Lexer(message)),
    }
}

/// Where a text begins: at its first byte, on line 1 in column 1.
pub open spec fn origin() -> Position {
    Position { pos: 0, lineno: 1, column: 1 }
}

/// The cursor after the token at `cursor`, which must be of the given type.
pub open spec fn eaten(source: Source, cursor: Cursor, type_: TokenType) -> Result<
    Cursor,
    ErrorView,
> {
    if cursor.token.type_ != type_ {
        Err(rejection(ErrorCode::UnexpectedToken, cursor.token))
    } else {
        match next_token(source.literals, source.text, cursor.at) {
            Ok((token, at)) => Ok(Cursor { token, at }),
            Err(message) => Err(ErrorView::Lexer(message)),
        }
    }
}

/// Taking a token leaves no more to parse than before, and less unless the
/// token is `EOF`.
pub proof fn lemma_eaten_moves_on(source: Source, cursor: Cursor, type_: TokenType)
    ensures
        eaten(source, cursor, type_) matches Ok(next) ==> {
            &&& remaining(source, next) <= remaining(source, cursor)
            &&& type_ != TokenType::EOF ==> remaining(source, next) < remaining(source, cursor)
            &&& carries_text(next.token)
            &&& cursor.at.pos <= source.text.len() ==> next.at.pos <= source.text.len()
        },
{
    if cursor.at.pos <= source.text.len() {
        lemma_token_moves_on(source.literals, source.text, cursor.at);
    }
}

/// The outcome of a step of the grammar that started at `from`, provided
/// that it has not left more to parse than there was. No step of this
/// grammar ever does, as [`lemma_every_step_is_in_bounds`] shows; the
/// proviso is what lets the grammar be written down as functions that end.
pub open spec fn in_bounds<T>(
    source: Source,
    from: Cursor,
    outcome: Result<(T, Cursor), ErrorView>,
) -> Result<(T, Cursor), ErrorView> {
    match outcome {
        Ok((_, cursor)) => if remaining(source, cursor) <= remaining(source, from) {
            outcome
        } else {
            Err(rejection(ErrorCode::UnexpectedToken, cursor.token))
        },
        Err(_) => outcome,
    }
}

/// variable : ID
pub open spec fn variable(source: Source, cursor: Cursor) -> Result<(VarView, Cursor), ErrorView> {
    match eaten(source, cursor, TokenType::ID) {
        Err(error) => Err(error),
        Ok(next) => Ok((VarView { token: cursor.token, value: cursor.token.value }, next)),
    }
}

/// type_spec : INTEGER | REAL
pub open spec fn type_spec(source: Source, cursor: Cursor) -> Result<
    (TypeView, Cursor),
    ErrorView,
> {
    let eat = if cursor.token.type_ == TokenType::Integer {
        eaten(source, cursor, TokenType::Integer)
    } else {
        eaten(source, cursor, TokenType::Real)
    };
    match eat {
        Err(error) => Err(error),
        Ok(next) => Ok((TypeView { value: cursor.token.value }, next)),
    }
}

/// The identifiers of `(COMMA ID)*`, appended to `names`.
pub open spec fn more_names(source: Source, names: Seq<TokenView>, cursor: Cursor) -> Result<
    (Seq<TokenView>, Cursor),
    ErrorView,
>
    decreases remaining(source, cursor),
{
    if cursor.token.type_ == TokenType::Comma {
        match eaten(source, cursor, TokenType::Comma) {
            Err(error) => Err(error),
            Ok(next) => match eaten(source, next, TokenType::ID) {
                Err(error) => Err(error),
                Ok(after) => {
                    proof {
                        lemma_eaten_moves_on(source, cursor, TokenType::Comma);
                        lemma_eaten_moves_on(source, next, TokenType::ID);
                    }
                    more_names(source, names.push(next.token), after)
                },
            },
        }
    } else {
        Ok((names, cursor))
    }
}

/// ID (COMMA ID)* COLON type_spec: the identifiers and the type.
pub open spec fn names_and_type(source: Source, cursor: Cursor) -> Result<
    ((Seq<TokenView>, TypeView), Cursor),
    ErrorView,
> {
    match eaten(source, cursor, TokenType::ID) {
        Err(error) => Err(error),
        Ok(next) => match more_names(source, seq![cursor.token], next) {
            Err(error) => Err(error),
            Ok((names, after)) => match eaten(source, after, TokenType::Colon) {
                Err(error) => Err(error),
                Ok(colon) => match type_spec(source, colon) {
                    Err(error) => Err(error),
                    Ok((type_node, done)) => Ok(((names, type_node), done)),
                },
            },
        }
    }
}

/// variable_declaration : ID (COMMA ID)* COLON type_spec
///
/// One declaration for each of the names.
pub open spec fn variable_declaration(source: Source, cursor: Cursor) -> Result<
    (Seq<NodeView>, Cursor),
    ErrorView,
> {
    match names_and_type(source, cursor) {
        Err(error) => Err(error),
        Ok(((names, type_node), done)) => Ok(
            (
                names.map_values(
                    |name: TokenView|
                        NodeView::VarDecl(VarView { token: name, value: name.value }, type_node),
                ),
                done,
            ),
        ),
    }
}

/// formal_parameters : ID (COMMA ID)* COLON type_spec
///
/// One parameter for each of the names.
pub open spec fn formal_parameters(source: Source, cursor: Cursor) -> Result<
    (Seq<ParamView>, Cursor),
    ErrorView,
> {
    match names_and_type(source, cursor) {
        Err(error) => Err(error),
        Ok(((names, type_node), done)) => Ok(
            (
                names.map_values(
                    |name: TokenView|
                        ParamView {
                            var_node: VarView { token: name, value: name.value },
                            type_node,
                        },
                ),
                done,
            ),
        ),
    }
}

/// Reading names and their type leaves less to parse than before.
pub proof fn lemma_more_names_moves_on(source: Source, names: Seq<TokenView>, cursor: Cursor)
    ensures
        more_names(source, names, cursor) matches Ok((_, after)) ==> remaining(source, after)
            <= remaining(source, cursor),
    decreases remaining(source, cursor),
{
    if cursor.token.type_ == TokenType::Comma {
        if let Ok(next) = eaten(source, cursor, TokenType::Comma) {
            if let Ok(after) = eaten(source, next, TokenType::ID) {
                lemma_eaten_moves_on(source, cursor, TokenType::Comma);
                lemma_eaten_moves_on(source, next, TokenType::ID);
                lemma_more_names_moves_on(source, names.push(next.token), after);
            }
        }
    }
}

/// Reading names and their type leaves less to parse than before.
pub proof fn lemma_names_and_type_moves_on(source: Source, cursor: Cursor)
    ensures
        names_and_type(source, cursor) matches Ok((_, after)) ==> remaining(source, after)
            < remaining(source, cursor),
{
    if let Ok(next) = eaten(source, cursor, TokenType::ID) {
        lemma_eaten_moves_on(source, cursor, TokenType::ID);
        lemma_more_names_moves_on(source, seq![cursor.token], next);
        if let Ok((_, after)) = more_names(source, seq![cursor.token], next) {
            lemma_eaten_moves_on(source, after, TokenType::Colon);
            if let Ok(colon) = eaten(source, after, TokenType::Colon) {
                lemma_eaten_moves_on(source, colon, TokenType::Integer);
                lemma_eaten_moves_on(source, colon, TokenType::Real);
            }
        }
    }
}

/// The parameters of `(SEMI formal_parameters)*`, appended to `params`.
pub open spec fn more_parameters(source: Source, params: Seq<ParamView>, cursor: Cursor) -> Result<
    (Seq<ParamView>, Cursor),
    ErrorView,
>
    decreases remaining(source, cursor),
{
    if cursor.token.type_ == TokenType::Semi {
        match eaten(source, cursor, TokenType::Semi) {
            Err(error) => Err(error),
            Ok(next) => match formal_parameters(source, next) {
                Err(error) => Err(error),
                Ok((more, after)) => {
                    proof {
                        lemma_eaten_moves_on(source, cursor, TokenType::Semi);
                        lemma_names_and_type_moves_on(source, next);
                    }
                    more_parameters(source, params + more, after)
                },
            },
        }
    } else {
        Ok((params, cursor))
    }
}

/// formal_parameter_list : (formal_parameters (SEMI formal_parameters)*)?
pub open spec fn formal_parameter_list(source: Source, cursor: Cursor) -> Result<
    (Seq<ParamView>, Cursor),
    ErrorView,
> {
    if cursor.token.type_ == TokenType::ID {
        match formal_parameters(source, cursor) {
            Err(error) => Err(error),
            Ok((params, after)) => more_parameters(source, params, after),
        }
    } else {
        Ok((Seq::empty(), cursor))
    }
}

/// The declarations of `(variable_declaration SEMI)*`, appended to
/// `declarations`.
pub open spec fn variable_declarations(
    source: Source,
    declarations: Seq<NodeView>,
    cursor: Cursor,
) -> Result<(Seq<NodeView>, Cursor), ErrorView>
    decreases remaining(source, cursor),
{
    if cursor.token.type_ == TokenType::ID {
        match variable_declaration(source, cursor) {
            Err(error) => Err(error),
            Ok((more, next)) => match eaten(source, next, TokenType::Semi) {
                Err(error) => Err(error),
                Ok(after) => {
                    proof {
                        lemma_names_and_type_moves_on(source, cursor);
                        lemma_eaten_moves_on(source, next, TokenType::Semi);
                    }
                    variable_declarations(source, declarations + more, after)
                },
            },
        }
    } else {
        Ok((declarations, cursor))
    }
}

/// Whether the token is an operator between factors.
pub open spec fn joins_factors(type_: TokenType) -> bool {
    type_ == TokenType::Mul || type_ == TokenType::IntegerDiv || type_ == TokenType::FloatDiv
}

/// Whether the token is an operator between terms.
pub open spec fn joins_terms(type_: TokenType) -> bool {
    type_ == TokenType::Plus || type_ == TokenType::Minus
}

/// factor : PLUS factor | MINUS factor | INTEGER_CONST | REAL_CONST
///        | LPAREN expr RPAREN | variable
pub open spec fn factor(source: Source, cursor: Cursor) -> Result<(NodeView, Cursor), ErrorView>
    decreases remaining(source, cursor), 6nat,
{
    let token = cursor.token;
    if token.type_ == TokenType::Plus || token.type_ == TokenType::Minus {
        match eaten(source, cursor, token.type_) {
            Err(error) => Err(error),
            Ok(next) => {
                proof {
                    lemma_eaten_moves_on(source, cursor, token.type_);
                }
                match factor(source, next) {
                    Err(error) => Err(error),
                    Ok((operand, after)) => Ok(
                        (NodeView::UnaryOp(token, Box::new(operand)), after),
                    ),
                }
            },
        }
    } else if token.type_ == TokenType::IntegerConst || token.type_ == TokenType::RealConst {
        match eaten(source, cursor, token.type_) {
            Err(error) => Err(error),
            Ok(next) => Ok((NodeView::Num(token.value), next)),
        }
    } else if token.type_ == TokenType::LeftParen {
        match eaten(source, cursor, TokenType::LeftParen) {
            Err(error) => Err(error),
            Ok(next) => {
                proof {
                    lemma_eaten_moves_on(source, cursor, TokenType::LeftParen);
                }
                match expr(source, next) {
                    Err(error) => Err(error),
                    Ok((node, after)) => match eaten(source, after, TokenType::RightParen) {
                        Err(error) => Err(error),
                        Ok(done) => Ok((node, done)),
                    },
                }
            },
        }
    } else {
        match variable(source, cursor) {
            Err(error) => Err(error),
            Ok((var, after)) => Ok((NodeView::Var(var), after)),
        }
    }
}

/// The factors of `((MUL | INTEGER_DIV | FLOAT_DIV) factor)*`, joined to
/// `left` from the left.
pub open spec fn more_factors(source: Source, left: NodeView, cursor: Cursor) -> Result<
    (NodeView, Cursor),
    ErrorView,
>
    decreases remaining(source, cursor), 5nat,
{
    if joins_factors(cursor.token.type_) {
        match eaten(source, cursor, cursor.token.type_) {
            Err(error) => Err(error),
            Ok(next) => {
                proof {
                    lemma_eaten_moves_on(source, cursor, cursor.token.type_);
                }
                match in_bounds(source, next, factor(source, next)) {
                    Err(error) => Err(error),
                    Ok((right, after)) => more_factors(
                        source,
                        NodeView::BinOp(Box::new(left), cursor.token, Box::new(right)),
                        after,
                    ),
                }
            },
        }
    } else {
        Ok((left, cursor))
    }
}

/// term : factor ((MUL | INTEGER_DIV | FLOAT_DIV) factor)*
pub open spec fn term(source: Source, cursor: Cursor) -> Result<(NodeView, Cursor), ErrorView>
    decreases remaining(source, cursor), 7nat,
{
    match in_bounds(source, cursor, factor(source, cursor)) {
        Err(error) => Err(error),
        Ok((node, after)) => more_factors(source, node, after),
    }
}

/// The terms of `((PLUS | MINUS) term)*`, joined to `left` from the left.
pub open spec fn more_terms(source: Source, left: NodeView, cursor: Cursor) -> Result<
    (NodeView, Cursor),
    ErrorView,
>
    decreases remaining(source, cursor), 8nat,
{
    if joins_terms(cursor.token.type_) {
        match eaten(source, cursor, cursor.token.type_) {
            Err(error) => Err(error),
            Ok(next) => {
                proof {
                    lemma_eaten_moves_on(source, cursor, cursor.token.type_);
                }
                match in_bounds(source, next, term(source, next)) {
                    Err(error) => Err(error),
                    Ok((right, after)) => more_terms(
                        source,
                        NodeView::BinOp(Box::new(left), cursor.token, Box::new(right)),
                        after,
                    ),
                }
            },
        }
    } else {
        Ok((left, cursor))
    }
}

/// expr : term ((PLUS | MINUS) term)*
pub open spec fn expr(source: Source, cursor: Cursor) -> Result<(NodeView, Cursor), ErrorView>
    decreases remaining(source, cursor), 9nat,
{
    match in_bounds(source, cursor, term(source, cursor)) {
        Err(error) => Err(error),
        Ok((node, after)) => more_terms(source, node, after),
    }
}

/// assignment_statement : variable ASSIGN expr
pub open spec fn assignment_statement(source: Source, cursor: Cursor) -> Result<
    (NodeView, Cursor),
    ErrorView,
> {
    match variable(source, cursor) {
        Err(error) => Err(error),
        Ok((target, next)) => match eaten(source, next, TokenType::Assign) {
            Err(error) => Err(error),
            Ok(after) => match expr(source, after) {
                Err(error) => Err(error),
                Ok((right, done)) => Ok(
                    (NodeView::Assign(target, next.token, Box::new(right)), done),
                ),
            },
        },
    }
}

/// The arguments of `(COMMA expr)*`, appended to `arguments`.
pub open spec fn more_arguments(source: Source, arguments: Seq<NodeView>, cursor: Cursor) -> Result<
    (Seq<NodeView>, Cursor),
    ErrorView,
>
    decreases remaining(source, cursor), 10nat,
{
    if cursor.token.type_ == TokenType::Comma {
        match eaten(source, cursor, TokenType::Comma) {
            Err(error) => Err(error),
            Ok(next) => {
                proof {
                    lemma_eaten_moves_on(source, cursor, TokenType::Comma);
                }
                match in_bounds(source, next, expr(source, next)) {
                    Err(error) => Err(error),
                    Ok((argument, after)) => more_arguments(
                        source,
                        arguments.push(argument),
                        after,
                    ),
                }
            },
        }
    } else {
        Ok((arguments, cursor))
    }
}

/// proccall_statement : ID LPAREN (expr (COMMA expr)*)? RPAREN
pub open spec fn proccall_statement(source: Source, cursor: Cursor) -> Result<
    (NodeView, Cursor),
    ErrorView,
> {
    match eaten(source, cursor, TokenType::ID) {
        Err(error) => Err(error),
        Ok(next) => match eaten(source, next, TokenType::LeftParen) {
            Err(error) => Err(error),
            Ok(open) => {
                let arguments = if open.token.type_ != TokenType::RightParen {
                    match expr(source, open) {
                        Err(error) => Err(error),
                        Ok((first, after)) => more_arguments(source, seq![first], after),
                    }
                } else {
                    Ok((Seq::empty(), open))
                };
                match arguments {
                    Err(error) => Err(error),
                    Ok((actual_params, close)) => match eaten(
                        source,
                        close,
                        TokenType::RightParen,
                    ) {
                        Err(error) => Err(error),
                        Ok(done) => Ok(
                            (
                                NodeView::ProcedureCall(
                                    ProcedureCallView {
                                        proc_name: identifier(cursor.token.value),
                                        actual_params,
                                        token: cursor.token,
                                        proc_symbol: None,
                                    },
                                ),
                                done,
                            ),
                        ),
                    },
                }
            },
        },
    }
}

/// statement : compound_statement | proccall_statement
///           | assignment_statement | empty
///
/// An identifier starts a call if an opening parenthesis follows it at once,
/// and an assignment otherwise.
pub open spec fn statement(source: Source, cursor: Cursor) -> Result<(NodeView, Cursor), ErrorView>
    decreases remaining(source, cursor), 13nat,
{
    if cursor.token.type_ == TokenType::Begin {
        compound_statement(source, cursor)
    } else if cursor.token.type_ == TokenType::ID {
        if current(source.text, cursor.at.pos) == Some('(') {
            proccall_statement(source, cursor)
        } else {
            assignment_statement(source, cursor)
        }
    } else {
        Ok((NodeView::NoOp, cursor))
    }
}

/// The statements of `(SEMI statement)*`, appended to `statements`.
pub open spec fn more_statements(
    source: Source,
    statements: Seq<NodeView>,
    cursor: Cursor,
) -> Result<(Seq<NodeView>, Cursor), ErrorView>
    decreases remaining(source, cursor), 14nat,
{
    if cursor.token.type_ == TokenType::Semi {
        match eaten(source, cursor, TokenType::Semi) {
            Err(error) => Err(error),
            Ok(next) => {
                proof {
                    lemma_eaten_moves_on(source, cursor, TokenType::Semi);
                }
                match in_bounds(source, next, statement(source, next)) {
                    Err(error) => Err(error),
                    Ok((node, after)) => more_statements(source, statements.push(node), after),
                }
            },
        }
    } else {
        Ok((statements, cursor))
    }
}

/// statement_list : statement (SEMI statement)*
///
/// An identifier may not follow the list.
pub open spec fn statement_list(source: Source, cursor: Cursor) -> Result<
    (Seq<NodeView>, Cursor),
    ErrorView,
>
    decreases remaining(source, cursor), 15nat,
{
    match in_bounds(source, cursor, statement(source, cursor)) {
        Err(error) => Err(error),
        Ok((node, after)) => match more_statements(source, seq![node], after) {
            Err(error) => Err(error),
            Ok((statements, done)) => if done.token.type_ == TokenType::ID {
                Err(rejection(ErrorCode::DuplicateID, done.token))
            } else {
                Ok((statements, done))
            },
        },
    }
}

/// compound_statement : BEGIN statement_list END
pub open spec fn compound_statement(source: Source, cursor: Cursor) -> Result<
    (NodeView, Cursor),
    ErrorView,
>
    decreases remaining(source, cursor), 12nat,
{
    match eaten(source, cursor, TokenType::Begin) {
        Err(error) => Err(error),
        Ok(next) => {
            proof {
                lemma_eaten_moves_on(source, cursor, TokenType::Begin);
            }
            match statement_list(source, next) {
                Err(error) => Err(error),
                Ok((children, after)) => match eaten(source, after, TokenType::End) {
                    Err(error) => Err(error),
                    Ok(done) => Ok((NodeView::Compound(CompoundView { children }), done)),
                },
            }
        },
    }
}

/// What follows `PROCEDURE` in a procedure_declaration:
/// ID (LPAREN formal_parameter_list RPAREN)? SEMI block SEMI
pub open spec fn procedure_heading_and_body(source: Source, cursor: Cursor) -> Result<
    (NodeView, Cursor),
    ErrorView,
>
    decreases remaining(source, cursor), 16nat,
{
    match eaten(source, cursor, TokenType::ID) {
        Err(error) => Err(error),
        Ok(next) => {
            let params = if next.token.type_ == TokenType::LeftParen {
                match eaten(source, next, TokenType::LeftParen) {
                    Err(error) => Err(error),
                    Ok(open) => match formal_parameter_list(source, open) {
                        Err(error) => Err(error),
                        Ok((params, close)) => match eaten(source, close, TokenType::RightParen) {
                            Err(error) => Err(error),
                            Ok(after) => Ok((params, after)),
                        },
                    },
                }
            } else {
                Ok((Seq::empty(), next))
            };
            match in_bounds(source, next, params) {
                Err(error) => Err(error),
                Ok((params, after)) => match eaten(source, after, TokenType::Semi) {
                    Err(error) => Err(error),
                    Ok(body) => {
                        proof {
                            lemma_eaten_moves_on(source, cursor, TokenType::ID);
                            lemma_eaten_moves_on(source, after, TokenType::Semi);
                        }
                        match block(source, body) {
                            Err(error) => Err(error),
                            Ok((block_node, end)) => match eaten(source, end, TokenType::Semi) {
                                Err(error) => Err(error),
                                Ok(done) => Ok(
                                    (
                                        NodeView::ProcedureDecl(
                                            identifier(cursor.token.value),
                                            Box::new(block_node),
                                            params,
                                        ),
                                        done,
                                    ),
                                ),
                            },
                        }
                    },
                },
            }
        },
    }
}

/// procedure_declaration :
///     PROCEDURE ID (LPAREN formal_parameter_list RPAREN)? SEMI block SEMI
pub open spec fn procedure_declaration(source: Source, cursor: Cursor) -> Result<
    (NodeView, Cursor),
    ErrorView,
> {
    match eaten(source, cursor, TokenType::Procedure) {
        Err(error) => Err(error),
        Ok(next) => procedure_heading_and_body(source, next),
    }
}

/// The declarations of `procedure_declaration*`, appended to `declarations`.
pub open spec fn procedure_declarations(
    source: Source,
    declarations: Seq<NodeView>,
    cursor: Cursor,
) -> Result<(Seq<NodeView>, Cursor), ErrorView>
    decreases remaining(source, cursor), 18nat,
{
    if cursor.token.type_ == TokenType::Procedure {
        match eaten(source, cursor, TokenType::Procedure) {
            Err(error) => Err(error),
            Ok(next) => {
                proof {
                    lemma_eaten_moves_on(source, cursor, TokenType::Procedure);
                }
                match in_bounds(source, next, procedure_heading_and_body(source, next)) {
                    Err(error) => Err(error),
                    Ok((declaration, after)) => procedure_declarations(
                        source,
                        declarations.push(declaration),
                        after,
                    ),
                }
            },
        }
    } else {
        Ok((declarations, cursor))
    }
}

/// declarations : (VAR (variable_declaration SEMI)*)? procedure_declaration*
pub open spec fn declarations(source: Source, cursor: Cursor) -> Result<
    (Seq<NodeView>, Cursor),
    ErrorView,
>
    decreases remaining(source, cursor), 19nat,
{
    let variables = if cursor.token.type_ == TokenType::Var {
        match eaten(source, cursor, TokenType::Var) {
            Err(error) => Err(error),
            Ok(next) => variable_declarations(source, Seq::empty(), next),
        }
    } else {
        Ok((Seq::empty(), cursor))
    };
    match in_bounds(source, cursor, variables) {
        Err(error) => Err(error),
        Ok((declared, after)) => procedure_declarations(source, declared, after),
    }
}

/// block : declarations compound_statement
pub open spec fn block(source: Source, cursor: Cursor) -> Result<(BlockView, Cursor), ErrorView>
    decreases remaining(source, cursor), 20nat,
{
    match declarations(source, cursor) {
        Err(error) => Err(error),
        Ok((declarations, after)) => match compound_statement(source, after) {
            Err(error) => Err(error),
            Ok((compound_statement, done)) => Ok(
                (BlockView { declarations, compound_statement }, done),
            ),
        },
    }
}

/// program : PROGRAM variable SEMI block DOT
pub open spec fn program(source: Source, cursor: Cursor) -> Result<(NodeView, Cursor), ErrorView> {
    match eaten(source, cursor, TokenType::Program) {
        Err(error) => Err(error),
        Ok(next) => match variable(source, next) {
            Err(error) => Err(error),
            Ok((name, semi)) => match eaten(source, semi, TokenType::Semi) {
                Err(error) => Err(error),
                Ok(body) => match block(source, body) {
                    Err(error) => Err(error),
                    Ok((block_node, dot)) => match eaten(source, dot, TokenType::Dot) {
                        Err(error) => Err(error),
                        Ok(done) => Ok(
                            (
                                NodeView::Program(identifier(name.value), Box::new(block_node)),
                                done,
                            ),
                        ),
                    },
                },
            },
        },
    }
}

/// The tree of a whole program, after which the text must end.
pub open spec fn parsed(source: Source, cursor: Cursor) -> Result<(NodeView, Cursor), ErrorView> {
    match program(source, cursor) {
        Err(error) => Err(error),
        Ok((node, done)) => if done.token.type_ == TokenType::EOF {
            Ok((node, done))
        } else {
            Err(rejection(ErrorCode::UnexpectedToken, done.token))
        },
    }
}

/// The tree of the program that a text holds.
pub open spec fn parse_text(source: Source) -> Result<NodeView, ErrorView> {
    match start(source, origin()) {
        Err(error) => Err(error),
        Ok(cursor) => match parsed(source, cursor) {
            Err(error) => Err(error),
            Ok((node, _)) => Ok(node),
        },
    }
}

/// Whether an outcome of the grammar has left no more to parse than there
/// was at `from`.
pub open spec fn moves_on<T>(
    source: Source,
    from: Cursor,
    outcome: Result<(T, Cursor), ErrorView>,
) -> bool {
    outcome matches Ok((_, after)) ==> remaining(source, after) <= remaining(source, from)
}

/// The declarations of variables leave no more to parse than there was.
pub proof fn lemma_variable_declarations_move_on(
    source: Source,
    declarations: Seq<NodeView>,
    cursor: Cursor,
)
    ensures
        moves_on(source, cursor, variable_declarations(source, declarations, cursor)),
    decreases remaining(source, cursor),
{
    if cursor.token.type_ == TokenType::ID {
        if let Ok((more, next)) = variable_declaration(source, cursor) {
            if let Ok(after) = eaten(source, next, TokenType::Semi) {
                lemma_names_and_type_moves_on(source, cursor);
                lemma_eaten_moves_on(source, next, TokenType::Semi);
                lemma_variable_declarations_move_on(source, declarations + more, after);
            }
        }
    }
}

/// The parameters of a procedure leave no more to parse than there was.
pub proof fn lemma_more_parameters_move_on(source: Source, params: Seq<ParamView>, cursor: Cursor)
    ensures
        moves_on(source, cursor, more_parameters(source, params, cursor)),
        moves_on(source, cursor, formal_parameter_list(source, cursor)),
    decreases remaining(source, cursor), 1nat,
{
    if cursor.token.type_ == TokenType::Semi {
        if let Ok(next) = eaten(source, cursor, TokenType::Semi) {
            if let Ok((more, after)) = formal_parameters(source, next) {
                lemma_eaten_moves_on(source, cursor, TokenType::Semi);
                lemma_names_and_type_moves_on(source, next);
                lemma_more_parameters_move_on(source, params + more, after);
            }
        }
    }
    if cursor.token.type_ == TokenType::ID {
        if let Ok((first, after)) = formal_parameters(source, cursor) {
            lemma_names_and_type_moves_on(source, cursor);
            lemma_more_parameters_move_on(source, first, after);
        }
    }
}

/// An expression leaves no more to parse than there was, and so does each
/// of its parts: the proviso of [`in_bounds`] always holds of them.
pub proof fn lemma_expr_moves_on(source: Source, cursor: Cursor)
    ensures
        moves_on(source, cursor, expr(source, cursor)),
    decreases remaining(source, cursor), 9nat,
{
    lemma_term_moves_on(source, cursor);
    if let Ok((node, after)) = term(source, cursor) {
        lemma_more_terms_move_on(source, node, after);
    }
}

/// Further terms leave no more to parse than there was.
pub proof fn lemma_more_terms_move_on(source: Source, left: NodeView, cursor: Cursor)
    ensures
        moves_on(source, cursor, more_terms(source, left, cursor)),
    decreases remaining(source, cursor), 8nat,
{
    if joins_terms(cursor.token.type_) {
        if let Ok(next) = eaten(source, cursor, cursor.token.type_) {
            lemma_eaten_moves_on(source, cursor, cursor.token.type_);
            if let Ok((right, after)) = in_bounds(source, next, term(source, next)) {
                lemma_more_terms_move_on(
                    source,
                    NodeView::BinOp(Box::new(left), cursor.token, Box::new(right)),
                    after,
                );
            }
        }
    }
}

/// A term leaves no more to parse than there was.
pub proof fn lemma_term_moves_on(source: Source, cursor: Cursor)
    ensures
        moves_on(source, cursor, term(source, cursor)),
    decreases remaining(source, cursor), 7nat,
{
    lemma_factor_moves_on(source, cursor);
    if let Ok((node, after)) = factor(source, cursor) {
        lemma_more_factors_move_on(source, node, after);
    }
}

/// Further factors leave no more to parse than there was.
pub proof fn lemma_more_factors_move_on(source: Source, left: NodeView, cursor: Cursor)
    ensures
        moves_on(source, cursor, more_factors(source, left, cursor)),
    decreases remaining(source, cursor), 5nat,
{
    if joins_factors(cursor.token.type_) {
        if let Ok(next) = eaten(source, cursor, cursor.token.type_) {
            lemma_eaten_moves_on(source, cursor, cursor.token.type_);
            if let Ok((right, after)) = in_bounds(source, next, factor(source, next)) {
                lemma_more_factors_move_on(
                    source,
                    NodeView::BinOp(Box::new(left), cursor.token, Box::new(right)),
                    after,
                );
            }
        }
    }
}

/// A factor leaves no more to parse than there was.
pub proof fn lemma_factor_moves_on(source: Source, cursor: Cursor)
    ensures
        moves_on(source, cursor, factor(source, cursor)),
    decreases remaining(source, cursor), 6nat,
{
    let token = cursor.token;
    lemma_eaten_moves_on(source, cursor, token.type_);
    lemma_eaten_moves_on(source, cursor, TokenType::ID);
    if token.type_ == TokenType::Plus || token.type_ == TokenType::Minus {
        if let Ok(next) = eaten(source, cursor, token.type_) {
            lemma_factor_moves_on(source, next);
        }
    } else if token.type_ == TokenType::LeftParen {
        if let Ok(next) = eaten(source, cursor, TokenType::LeftParen) {
            lemma_expr_moves_on(source, next);
            if let Ok((_, after)) = expr(source, next) {
                lemma_eaten_moves_on(source, after, TokenType::RightParen);
            }
        }
    }
}

/// Further arguments leave no more to parse than there was.
pub proof fn lemma_more_arguments_move_on(source: Source, arguments: Seq<NodeView>, cursor: Cursor)
    ensures
        moves_on(source, cursor, more_arguments(source, arguments, cursor)),
    decreases remaining(source, cursor),
{
    if cursor.token.type_ == TokenType::Comma {
        if let Ok(next) = eaten(source, cursor, TokenType::Comma) {
            lemma_eaten_moves_on(source, cursor, TokenType::Comma);
            if let Ok((argument, after)) = in_bounds(source, next, expr(source, next)) {
                lemma_more_arguments_move_on(source, arguments.push(argument), after);
            }
        }
    }
}

/// A statement leaves no more to parse than there was.
pub proof fn lemma_statement_moves_on(source: Source, cursor: Cursor)
    ensures
        moves_on(source, cursor, statement(source, cursor)),
    decreases remaining(source, cursor), 13nat,
{
    if cursor.token.type_ == TokenType::Begin {
        lemma_compound_statement_moves_on(source, cursor);
    } else if cursor.token.type_ == TokenType::ID {
        lemma_eaten_moves_on(source, cursor, TokenType::ID);
        if let Ok(next) = eaten(source, cursor, TokenType::ID) {
            lemma_eaten_moves_on(source, next, TokenType::Assign);
            lemma_eaten_moves_on(source, next, TokenType::LeftParen);
            if let Ok(after) = eaten(source, next, TokenType::Assign) {
                lemma_expr_moves_on(source, after);
            }
            if let Ok(open) = eaten(source, next, TokenType::LeftParen) {
                lemma_eaten_moves_on(source, open, TokenType::RightParen);
                lemma_expr_moves_on(source, open);
                if let Ok((first, after)) = expr(source, open) {
                    lemma_more_arguments_move_on(source, seq![first], after);
                    if let Ok((_, close)) = more_arguments(source, seq![first], after) {
                        lemma_eaten_moves_on(source, close, TokenType::RightParen);
                    }
                }
            }
        }
    }
}

/// Further statements leave no more to parse than there was.
pub proof fn lemma_more_statements_move_on(
    source: Source,
    statements: Seq<NodeView>,
    cursor: Cursor,
)
    ensures
        moves_on(source, cursor, more_statements(source, statements, cursor)),
    decreases remaining(source, cursor), 14nat,
{
    if cursor.token.type_ == TokenType::Semi {
        if let Ok(next) = eaten(source, cursor, TokenType::Semi) {
            lemma_eaten_moves_on(source, cursor, TokenType::Semi);
            if let Ok((node, after)) = in_bounds(source, next, statement(source, next)) {
                lemma_more_statements_move_on(source, statements.push(node), after);
            }
        }
    }
}

/// A compound statement leaves no more to parse than there was.
pub proof fn lemma_compound_statement_moves_on(source: Source, cursor: Cursor)
    ensures
        moves_on(source, cursor, compound_statement(source, cursor)),
    decreases remaining(source, cursor), 12nat,
{
    if let Ok(next) = eaten(source, cursor, TokenType::Begin) {
        lemma_eaten_moves_on(source, cursor, TokenType::Begin);
        lemma_statement_moves_on(source, next);
        if let Ok((node, after)) = statement(source, next) {
            lemma_more_statements_move_on(source, seq![node], after);
            if let Ok((_, end)) = statement_list(source, next) {
                lemma_eaten_moves_on(source, end, TokenType::End);
            }
        }
    }
}

/// A block leaves no more to parse than there was, and so do the
/// declarations in it.
pub proof fn lemma_block_moves_on(source: Source, cursor: Cursor)
    ensures
        moves_on(source, cursor, block(source, cursor)),
        moves_on(source, cursor, declarations(source, cursor)),
    decreases remaining(source, cursor), 20nat,
{
    let variables = if cursor.token.type_ == TokenType::Var {
        match eaten(source, cursor, TokenType::Var) {
            Err(error) => Err(error),
            Ok(next) => variable_declarations(source, Seq::empty(), next),
        }
    } else {
        Ok((Seq::empty(), cursor))
    };
    if cursor.token.type_ == TokenType::Var {
        lemma_eaten_moves_on(source, cursor, TokenType::Var);
        if let Ok(next) = eaten(source, cursor, TokenType::Var) {
            lemma_variable_declarations_move_on(source, Seq::empty(), next);
        }
    }
    if let Ok((declared, after)) = variables {
        lemma_procedure_declarations_move_on(source, declared, after);
    }
    if let Ok((_, after)) = declarations(source, cursor) {
        lemma_compound_statement_moves_on(source, after);
    }
}

/// Declarations of procedures leave no more to parse than there was.
pub proof fn lemma_procedure_declarations_move_on(
    source: Source,
    declarations: Seq<NodeView>,
    cursor: Cursor,
)
    ensures
        moves_on(source, cursor, procedure_declarations(source, declarations, cursor)),
    decreases remaining(source, cursor), 18nat,
{
    if cursor.token.type_ == TokenType::Procedure {
        if let Ok(next) = eaten(source, cursor, TokenType::Procedure) {
            lemma_eaten_moves_on(source, cursor, TokenType::Procedure);
            if let Ok((declaration, after)) = in_bounds(
                source,
                next,
                procedure_heading_and_body(source, next),
            ) {
                lemma_procedure_declarations_move_on(
                    source,
                    declarations.push(declaration),
                    after,
                );
            }
        }
    }
}

/// The declaration of a procedure leaves no more to parse than there was.
pub proof fn lemma_procedure_moves_on(source: Source, cursor: Cursor)
    ensures
        moves_on(source, cursor, procedure_heading_and_body(source, cursor)),
    decreases remaining(source, cursor), 16nat,
{
    if let Ok(next) = eaten(source, cursor, TokenType::ID) {
        lemma_eaten_moves_on(source, cursor, TokenType::ID);
        let params = if next.token.type_ == TokenType::LeftParen {
            match eaten(source, next, TokenType::LeftParen) {
                Err(error) => Err(error),
                Ok(open) => match formal_parameter_list(source, open) {
                    Err(error) => Err(error),
                    Ok((params, close)) => match eaten(source, close, TokenType::RightParen) {
                        Err(error) => Err(error),
                        Ok(after) => Ok((params, after)),
                    },
                },
            }
        } else {
            Ok((Seq::empty(), next))
        };
        if let Ok((_, after)) = in_bounds(source, next, params) {
            if let Ok(body) = eaten(source, after, TokenType::Semi) {
                lemma_eaten_moves_on(source, after, TokenType::Semi);
                lemma_block_moves_on(source, body);
                if let Ok((_, end)) = block(source, body) {
                    lemma_eaten_moves_on(source, end, TokenType::Semi);
                }
            }
        }
    }
}

/// No step of the grammar ever leaves more to parse than there was: where
/// the grammar takes one step and then another, the proviso of [`in_bounds`]
/// holds of the first.
pub proof fn lemma_every_step_is_in_bounds(source: Source, cursor: Cursor)
    ensures
        in_bounds(source, cursor, factor(source, cursor)) == factor(source, cursor),
        in_bounds(source, cursor, term(source, cursor)) == term(source, cursor),
        in_bounds(source, cursor, expr(source, cursor)) == expr(source, cursor),
        in_bounds(source, cursor, statement(source, cursor)) == statement(source, cursor),
        in_bounds(source, cursor, procedure_heading_and_body(source, cursor))
            == procedure_heading_and_body(source, cursor),
{
    lemma_factor_moves_on(source, cursor);
    lemma_term_moves_on(source, cursor);
    lemma_expr_moves_on(source, cursor);
    lemma_statement_moves_on(source, cursor);
    lemma_procedure_moves_on(source, cursor);
}

/// What a step of the parser came to, as the grammar speaks of it.
pub open spec fn node_outcome(result: Result<Node, Error>) -> Result<NodeView, ErrorView> {
    match result {
        Ok(node) => Ok(node@),
        Err(error) => Err(error@),
    }
}

/// What a step of the parser came to, as the grammar speaks of it.
pub open spec fn nodes_outcome(result: Result<Vec<Node>, Error>) -> Result<
    Seq<NodeView>,
    ErrorView,
> {
    match result {
        Ok(nodes) => Ok(nodes_view(nodes)),
        Err(error) => Err(error@),
    }
}

/// What a step of the parser came to, as the grammar speaks of it.
pub open spec fn block_outcome(result: Result<Block, Error>) -> Result<BlockView, ErrorView> {
    match result {
        Ok(block) => Ok(block@),
        Err(error) => Err(error@),
    }
}

/// What a step of the parser came to, as the grammar speaks of it.
pub open spec fn var_outcome(result: Result<Var, Error>) -> Result<VarView, ErrorView> {
    match result {
        Ok(var) => Ok(var@),
        Err(error) => Err(error@),
    }
}

/// What a step of the parser came to, as the grammar speaks of it.
pub open spec fn type_outcome(result: Result<Type, Error>) -> Result<TypeView, ErrorView> {
    match result {
        Ok(type_node) => Ok(type_node@),
        Err(error) => Err(error@),
    }
}

/// What a step that appends to a list came to: what it appended to the
/// `before` of the list.
pub open spec fn appended<T>(result: Result<(), Error>, before: Seq<T>, after: Seq<T>) -> Result<
    Seq<T>,
    ErrorView,
> {
    match result {
        Ok(_) => Ok(after.skip(before.len() as int)),
        Err(error) => Err(error@),
    }
}

/// The views of a list of parameters, in order.
pub open spec fn params_view(params: Vec<Param>) -> Seq<ParamView> {
    params@.map_values(|param: Param| param@)
}

/// Whether all the parameters have text for their name and their type.
pub open spec fn params_well_formed(params: Seq<ParamView>) -> bool {
    forall|i: int|
        0 <= i < params.len() ==> (#[trigger] params[i]).var_node.value is String
            && params[i].type_node.value is String
}

/// The parser, with its lexer and the token it looks at.
pub struct Parser<L> {
    lexer: Lexer<L>,
    current_token: Token,
}

impl<L: Fn(String) -> Option<Real>> Parser<L> {
    /// The lexer as it stands: past the token that the parser looks at.
    pub closed spec fn lexer(&self) -> Lexer<L> {
        self.lexer
    }

    /// The token that the parser looks at.
    pub closed spec fn current(&self) -> TokenView {
        self.current_token@
    }

    /// What the parser reads.
    pub open spec fn source(&self) -> Source {
        Source { literals: self.lexer().literals(), text: self.lexer().text() }
    }

    /// Where the parser stands.
    pub open spec fn cursor(&self) -> Cursor {
        Cursor { token: self.current(), at: self.lexer().position() }
    }

    /// Whether the lexer is usable and the token is one that it made.
    pub open spec fn wf(&self) -> bool {
        self.lexer().wf() && carries_text(self.current())
    }

    /// How much is left to parse.
    pub open spec fn remaining(&self) -> nat {
        remaining(self.source(), self.cursor())
    }

    /// Whether `self` is a later state of `before`: the same text and
    /// reader, and no more left to parse.
    pub open spec fn continues(&self, before: Self) -> bool {
        &&& self.wf()
        &&& self.lexer().text() == before.lexer().text()
        &&& self.lexer().real_literal() == before.lexer().real_literal()
        &&& self.remaining() <= before.remaining()
    }

    /// Whether the step from `self` to `after` with `outcome` is the one
    /// that the grammar gives as `expected`.
    pub open spec fn step<T>(
        &self,
        after: Self,
        outcome: Result<T, ErrorView>,
        expected: Result<(T, Cursor), ErrorView>,
    ) -> bool {
        match expected {
            Ok((tree, cursor)) => outcome == Ok::<T, ErrorView>(tree) && after.cursor() == cursor
                && after.continues(*self),
            Err(error) => outcome == Err::<T, ErrorView>(error),
        }
    }

    /// A parser that looks at the first token that the lexer finds from
    /// where it stands.
    pub fn new(lexer: Lexer<L>) -> (result: Result<Self, Error>)
        requires
            lexer.wf(),
        ensures
            match start(
                Source { literals: lexer.literals(), text: lexer.text() },
                lexer.position(),
            ) {
                Ok(cursor) => result matches Ok(parser) && parser.wf() && parser.cursor()
                    == cursor && parser.lexer().continues(lexer),
                Err(error) => result matches Err(raised) && raised@ == error,
            },
    {
        let mut lexer = lexer;
        proof {
            lemma_token_moves_on(lexer.literals(), lexer.text(), lexer.position());
        }
        match lexer.get_next_token() {
            Ok(current_token) => Ok(Parser { lexer, current_token }),
            Err(error) => Err(Error::Lexer(error)),
        }
    }

    /// The error for a token that may not stand where it does.
    fn error<T>(error_code: ErrorCode, token: Token) -> (raised: Result<T, Error>)
        ensures
            raised matches Err(error) && error@ == rejection(error_code, token@),
    {
        match ParserError::new(error_code.message(), error_code, token).throw::<T>() {
            Ok(value) => Ok(value),
            Err(error) => Err(Error::Parser(error)),
        }
    }

    /// Takes the token that the parser looks at, which must be of the given
    /// type, and looks at the next one.
    fn eat(&mut self, token_type: TokenType) -> (result: Result<(), Error>)
        requires
            old(self).wf(),
        ensures
            match eaten(old(self).source(), old(self).cursor(), token_type) {
                Ok(cursor) => {
                    &&& result is Ok
                    &&& final(self).cursor() == cursor
                    &&& final(self).continues(*old(self))
                    &&& token_type != TokenType::EOF ==> final(self).remaining() < old(self).remaining()
                },
                Err(error) => result matches Err(raised) && raised@ == error,
            },
    {
        if self.current_token.type_ == token_type {
            proof {
                lemma_eaten_moves_on(self.source(), self.cursor(), token_type);
            }
            match self.lexer.get_next_token() {
                Ok(token) => {
                    self.current_token = token;
                    Ok(())
                },
                Err(error) => Err(Error::Lexer(error)),
            }
        } else {
            Self::error(ErrorCode::UnexpectedToken, self.current_token.clone())
        }
    }

    /// factor : PLUS factor | MINUS factor | INTEGER_CONST | REAL_CONST
    ///        | LPAREN expr RPAREN | variable
    #[verifier::rlimit(50)]
    fn factor(&mut self) -> (result: Result<Node, Error>)
        requires
            old(self).wf(),
        ensures
            old(self).step(
                *final(self),
                node_outcome(result),
                factor(old(self).source(), old(self).cursor()),
            ),
            result matches Ok(node) ==> well_formed(node@),
        decreases old(self).remaining(), 6nat,
    {
        let token = self.current_token.clone();
        match token.type_ {
            TokenType::Plus => {
                self.eat(TokenType::Plus)?;
                let operand = self.factor()?;
                Ok(Node::UnaryOp(token, Box::new(operand)))
            },
            TokenType::Minus => {
                self.eat(TokenType::Minus)?;
                let operand = self.factor()?;
                Ok(Node::UnaryOp(token, Box::new(operand)))
            },
            TokenType::IntegerConst => {
                self.eat(TokenType::IntegerConst)?;
                Ok(Node::Num(token.value))
            },
            TokenType::RealConst => {
                self.eat(TokenType::RealConst)?;
                Ok(Node::Num(token.value))
            },
            TokenType::LeftParen => {
                self.eat(TokenType::LeftParen)?;
                let node = self.expr()?;
                self.eat(TokenType::RightParen)?;
                Ok(node)
            },
            _ => {
                let var = self.variable()?;
                Ok(Node::Var(var))
            },
        }
    }

    /// term : factor ((MUL | INTEGER_DIV | FLOAT_DIV) factor)*
    fn term(&mut self) -> (result: Result<Node, Error>)
        requires
            old(self).wf(),
        ensures
            old(self).step(
                *final(self),
                node_outcome(result),
                term(old(self).source(), old(self).cursor()),
            ),
            result matches Ok(node) ==> well_formed(node@),
        decreases old(self).remaining(), 7nat,
    {
        let ghost source = self.source();
        let mut node = self.factor()?;
        let ghost first = node@;
        let ghost from = self.cursor();
        while self.current_token.type_ == TokenType::Mul || self.current_token.type_
            == TokenType::IntegerDiv || self.current_token.type_ == TokenType::FloatDiv
            invariant
                self.continues(*old(self)),
                self.source() == source,
                source == old(self).source(),
                term(source, old(self).cursor()) == more_factors(source, first, from),
                more_factors(source, first, from) == more_factors(source, node@, self.cursor()),
                well_formed(node@),
            decreases self.remaining(),
        {
            let token = self.current_token.clone();
            self.eat(token.type_)?;
            let right = self.factor()?;
            node = Node::BinOp(Box::new(node), token, Box::new(right));
        }
        Ok(node)
    }

    /// expr : term ((PLUS | MINUS) term)*
    fn expr(&mut self) -> (result: Result<Node, Error>)
        requires
            old(self).wf(),
        ensures
            old(self).step(
                *final(self),
                node_outcome(result),
                expr(old(self).source(), old(self).cursor()),
            ),
            result matches Ok(node) ==> well_formed(node@),
        decreases old(self).remaining(), 9nat,
    {
        let ghost source = self.source();
        let mut node = self.term()?;
        let ghost first = node@;
        let ghost from = self.cursor();
        while self.current_token.type_ == TokenType::Plus || self.current_token.type_
            == TokenType::Minus
            invariant
                self.continues(*old(self)),
                self.source() == source,
                source == old(self).source(),
                expr(source, old(self).cursor()) == more_terms(source, first, from),
                more_terms(source, first, from) == more_terms(source, node@, self.cursor()),
                well_formed(node@),
            decreases self.remaining(),
        {
            let token = self.current_token.clone();
            self.eat(token.type_)?;
            let right = self.term()?;
            node = Node::BinOp(Box::new(node), token, Box::new(right));
        }
        Ok(node)
    }

    /// An empty statement.
    fn empty(&self) -> (node: Node)
        ensures
            node == Node::NoOp,
    {
        Node::NoOp
    }

    /// variable : ID
    fn variable(&mut self) -> (result: Result<Var, Error>)
        requires
            old(self).wf(),
        ensures
            old(self).step(
                *final(self),
                var_outcome(result),
                variable(old(self).source(), old(self).cursor()),
            ),
            result matches Ok(var) ==> var@.value is String && final(self).remaining() < old(self).remaining(),
    {
        let node = Var::new(self.current_token.clone());
        self.eat(TokenType::ID)?;
        Ok(node)
    }

    /// assignment_statement : variable ASSIGN expr
    #[verifier::rlimit(50)]
    fn assignment_statement(&mut self) -> (result: Result<Node, Error>)
        requires
            old(self).wf(),
        ensures
            old(self).step(
                *final(self),
                node_outcome(result),
                assignment_statement(old(self).source(), old(self).cursor()),
            ),
            result matches Ok(node) ==> well_formed(node@),
        decreases old(self).remaining(), 11nat,
    {
        let left = self.variable()?;
        let token = self.current_token.clone();
        self.eat(TokenType::Assign)?;
        let right = self.expr()?;
        Ok(Node::Assign(left, token, Box::new(right)))
    }

    /// proccall_statement : ID LPAREN (expr (COMMA expr)*)? RPAREN
    #[verifier::rlimit(80)]
    fn proccall_statement(&mut self) -> (result: Result<Node, Error>)
        requires
            old(self).wf(),
        ensures
            old(self).step(
                *final(self),
                node_outcome(result),
                proccall_statement(old(self).source(), old(self).cursor()),
            ),
            result matches Ok(node) ==> well_formed(node@),
        decreases old(self).remaining(), 11nat,
    {
        let token = self.current_token.clone();
        self.eat(TokenType::ID)?;
        let proc_name = token.value.expect_string();
        self.eat(TokenType::LeftParen)?;
        let mut actual_params: Vec<Node> = Vec::new();
        if self.current_token.type_ != TokenType::RightParen {
            let first = self.expr()?;
            push_node(&mut actual_params, first);
            assert(nodes_view(actual_params) =~= seq![first@]);
            self.more_arguments(&mut actual_params)?;
        } else {
            assert(nodes_view(actual_params) =~= Seq::<NodeView>::empty());
        }
        self.eat(TokenType::RightParen)?;
        assert(all_well_formed(nodes_view(actual_params)));
        let call = ProcedureCall::new(proc_name, actual_params, token);
        assert(Node::ProcedureCall(call)@ == NodeView::ProcedureCall(call@));
        assert(well_formed(NodeView::ProcedureCall(call@)));
        Ok(Node::ProcedureCall(call))
    }

    /// (COMMA expr)*
    ///
    /// Appends the arguments to `arguments`.
    fn more_arguments(&mut self, arguments: &mut Vec<Node>) -> (result: Result<(), Error>)
        requires
            old(self).wf(),
            all_well_formed(nodes_view(*old(arguments))),
        ensures
            match more_arguments(
                old(self).source(),
                nodes_view(*old(arguments)),
                old(self).cursor(),
            ) {
                Ok((found, cursor)) => {
                    &&& result is Ok
                    &&& nodes_view(*final(arguments)) == found
                    &&& final(self).cursor() == cursor
                    &&& final(self).continues(*old(self))
                    &&& all_well_formed(found)
                },
                Err(error) => result matches Err(raised) && raised@ == error,
            },
        decreases old(self).remaining(), 10nat,
    {
        let ghost source = self.source();
        while self.current_token.type_ == TokenType::Comma
            invariant
                self.continues(*old(self)),
                self.source() == source,
                source == old(self).source(),
                all_well_formed(nodes_view(*arguments)),
                more_arguments(source, nodes_view(*old(arguments)), old(self).cursor())
                    == more_arguments(source, nodes_view(*arguments), self.cursor()),
            decreases self.remaining(),
        {
            self.eat(TokenType::Comma)?;
            let next = self.expr()?;
            push_node(arguments, next);
        }
        Ok(())
    }

    /// statement : compound_statement | proccall_statement
    ///           | assignment_statement | empty
    ///
    /// An identifier starts a call if an opening parenthesis follows it at
    /// once, and an assignment otherwise.
    fn statement(&mut self) -> (result: Result<Node, Error>)
        requires
            old(self).wf(),
        ensures
            old(self).step(
                *final(self),
                node_outcome(result),
                statement(old(self).source(), old(self).cursor()),
            ),
            result matches Ok(node) ==> well_formed(node@),
        decreases old(self).remaining(), 13nat,
    {
        match self.current_token.type_ {
            TokenType::Begin => self.compound_statement(),
            TokenType::ID => {
                if self.lexer.current_char() == Some('(') {
                    self.proccall_statement()
                } else {
                    self.assignment_statement()
                }
            },
            _ => Ok(self.empty()),
        }
    }

    /// statement_list : statement (SEMI statement)*
    ///
    /// An identifier may not follow the list.
    #[verifier::rlimit(50)]
    fn statement_list(&mut self) -> (result: Result<Vec<Node>, Error>)
        requires
            old(self).wf(),
        ensures
            old(self).step(
                *final(self),
                nodes_outcome(result),
                statement_list(old(self).source(), old(self).cursor()),
            ),
            result matches Ok(nodes) ==> all_well_formed(nodes_view(nodes)),
        decreases old(self).remaining(), 15nat,
    {
        let node = self.statement()?;
        let mut results: Vec<Node> = Vec::new();
        push_node(&mut results, node);
        assert(nodes_view(results) =~= seq![node@]);
        self.more_statements(&mut results)?;
        if self.current_token.type_ == TokenType::ID {
            return Self::error(ErrorCode::DuplicateID, self.current_token.clone());
        }
        Ok(results)
    }

    /// (SEMI statement)*
    ///
    /// Appends the statements to `statements`.
    fn more_statements(&mut self, statements: &mut Vec<Node>) -> (result: Result<(), Error>)
        requires
            old(self).wf(),
            all_well_formed(nodes_view(*old(statements))),
        ensures
            match more_statements(
                old(self).source(),
                nodes_view(*old(statements)),
                old(self).cursor(),
            ) {
                Ok((found, cursor)) => {
                    &&& result is Ok
                    &&& nodes_view(*final(statements)) == found
                    &&& final(self).cursor() == cursor
                    &&& final(self).continues(*old(self))
                    &&& all_well_formed(found)
                },
                Err(error) => result matches Err(raised) && raised@ == error,
            },
        decreases old(self).remaining(), 14nat,
    {
        let ghost source = self.source();
        while self.current_token.type_ == TokenType::Semi
            invariant
                self.continues(*old(self)),
                self.source() == source,
                source == old(self).source(),
                all_well_formed(nodes_view(*statements)),
                more_statements(source, nodes_view(*old(statements)), old(self).cursor())
                    == more_statements(source, nodes_view(*statements), self.cursor()),
            decreases self.remaining(),
        {
            self.eat(TokenType::Semi)?;
            let next = self.statement()?;
            push_node(statements, next);
        }
        Ok(())
    }

    /// compound_statement : BEGIN statement_list END
    #[verifier::rlimit(50)]
    fn compound_statement(&mut self) -> (result: Result<Node, Error>)
        requires
            old(self).wf(),
        ensures
            old(self).step(
                *final(self),
                node_outcome(result),
                compound_statement(old(self).source(), old(self).cursor()),
            ),
            result matches Ok(node) ==> well_formed(node@),
        decreases old(self).remaining(), 12nat,
    {
        self.eat(TokenType::Begin)?;
        let nodes = self.statement_list()?;
        self.eat(TokenType::End)?;
        Ok(Node::Compound(Compound { children: nodes }))
    }

    /// program : PROGRAM variable SEMI block DOT
    #[verifier::rlimit(80)]
    fn program(&mut self) -> (result: Result<Node, Error>)
        requires
            old(self).wf(),
        ensures
            old(self).step(
                *final(self),
                node_outcome(result),
                program(old(self).source(), old(self).cursor()),
            ),
            result matches Ok(node) ==> well_formed(node@) && node is Program,
    {
        self.eat(TokenType::Program)?;
        let var_node = self.variable()?;
        let prog_name = var_node.value.expect_string();
        self.eat(TokenType::Semi)?;
        let block_node = self.block()?;
        let program_node = Node::Program(prog_name, Box::new(block_node));
        self.eat(TokenType::Dot)?;
        Ok(program_node)
    }

    /// block : declarations compound_statement
    #[verifier::rlimit(50)]
    fn block(&mut self) -> (result: Result<Block, Error>)
        requires
            old(self).wf(),
        ensures
            old(self).step(
                *final(self),
                block_outcome(result),
                block(old(self).source(), old(self).cursor()),
            ),
            result matches Ok(block) ==> block_well_formed(block@),
        decreases old(self).remaining(), 20nat,
    {
        let declaration_nodes = self.declarations()?;
        let compound_statement_node = self.compound_statement()?;
        Ok(Block::new(declaration_nodes, compound_statement_node))
    }

    /// declarations : (VAR (variable_declaration SEMI)*)? procedure_declaration*
    #[verifier::rlimit(50)]
    fn declarations(&mut self) -> (result: Result<Vec<Node>, Error>)
        requires
            old(self).wf(),
        ensures
            old(self).step(
                *final(self),
                nodes_outcome(result),
                declarations(old(self).source(), old(self).cursor()),
            ),
            result matches Ok(nodes) ==> all_well_formed(nodes_view(nodes)),
        decreases old(self).remaining(), 19nat,
    {
        let mut nodes: Vec<Node> = Vec::new();
        assert(nodes_view(nodes) =~= Seq::<NodeView>::empty());
        if self.current_token.type_ == TokenType::Var {
            self.eat(TokenType::Var)?;
            self.variable_declarations(&mut nodes)?;
        }
        self.procedure_declarations(&mut nodes)?;
        Ok(nodes)
    }

    /// (variable_declaration SEMI)*
    ///
    /// Appends the declarations to `nodes`.
    fn variable_declarations(&mut self, nodes: &mut Vec<Node>) -> (result: Result<(), Error>)
        requires
            old(self).wf(),
            all_well_formed(nodes_view(*old(nodes))),
        ensures
            match variable_declarations(
                old(self).source(),
                nodes_view(*old(nodes)),
                old(self).cursor(),
            ) {
                Ok((declared, cursor)) => {
                    &&& result is Ok
                    &&& nodes_view(*final(nodes)) == declared
                    &&& final(self).cursor() == cursor
                    &&& final(self).continues(*old(self))
                    &&& all_well_formed(declared)
                },
                Err(error) => result matches Err(raised) && raised@ == error,
            },
    {
        let ghost source = self.source();
        while self.current_token.type_ == TokenType::ID
            invariant
                self.continues(*old(self)),
                self.source() == source,
                source == old(self).source(),
                all_well_formed(nodes_view(*nodes)),
                variable_declarations(source, nodes_view(*old(nodes)), old(self).cursor())
                    == variable_declarations(source, nodes_view(*nodes), self.cursor()),
            decreases self.remaining(),
        {
            self.variable_declaration(nodes)?;
            self.eat(TokenType::Semi)?;
        }
        Ok(())
    }

    /// procedure_declaration*
    ///
    /// Appends the declarations to `nodes`.
    fn procedure_declarations(&mut self, nodes: &mut Vec<Node>) -> (result: Result<(), Error>)
        requires
            old(self).wf(),
            all_well_formed(nodes_view(*old(nodes))),
        ensures
            match procedure_declarations(
                old(self).source(),
                nodes_view(*old(nodes)),
                old(self).cursor(),
            ) {
                Ok((declared, cursor)) => {
                    &&& result is Ok
                    &&& nodes_view(*final(nodes)) == declared
                    &&& final(self).cursor() == cursor
                    &&& final(self).continues(*old(self))
                    &&& all_well_formed(declared)
                },
                Err(error) => result matches Err(raised) && raised@ == error,
            },
        decreases old(self).remaining(), 18nat,
    {
        let ghost source = self.source();
        while self.current_token.type_ == TokenType::Procedure
            invariant
                self.continues(*old(self)),
                self.source() == source,
                source == old(self).source(),
                all_well_formed(nodes_view(*nodes)),
                procedure_declarations(source, nodes_view(*old(nodes)), old(self).cursor())
                    == procedure_declarations(source, nodes_view(*nodes), self.cursor()),
            decreases self.remaining(),
        {
            let declaration = self.procedure_declaration()?;
            push_node(nodes, declaration);
        }
        Ok(())
    }

    /// procedure_declaration :
    ///     PROCEDURE ID (LPAREN formal_parameter_list RPAREN)? SEMI block SEMI
    #[verifier::rlimit(80)]
    fn procedure_declaration(&mut self) -> (result: Result<Node, Error>)
        requires
            old(self).wf(),
        ensures
            old(self).step(
                *final(self),
                node_outcome(result),
                procedure_declaration(old(self).source(), old(self).cursor()),
            ),
            result matches Ok(node) ==> well_formed(node@) && final(self).remaining() < old(self).remaining(),
            result is Ok ==> final(self).remaining() <= remaining(
                old(self).source(),
                eaten(old(self).source(), old(self).cursor(), TokenType::Procedure)->Ok_0,
            ),
        decreases old(self).remaining(), 17nat,
    {
        self.eat(TokenType::Procedure)?;
        let name = self.current_token.clone();
        self.eat(TokenType::ID)?;
        let proc_name = name.value.expect_string();
        let mut params: Vec<Param> = Vec::new();
        assert(params_view(params) =~= Seq::<ParamView>::empty());
        if self.current_token.type_ == TokenType::LeftParen {
            self.eat(TokenType::LeftParen)?;
            self.formal_parameter_list(&mut params)?;
            self.eat(TokenType::RightParen)?;
        }
        self.eat(TokenType::Semi)?;
        let block_node = self.block()?;
        self.eat(TokenType::Semi)?;
        Ok(Node::ProcedureDecl(proc_name, Box::new(block_node), params))
    }

    /// ID (COMMA ID)* COLON type_spec: the identifiers and the type.
    #[verifier::rlimit(50)]
    fn names_and_type(&mut self) -> (result: Result<(Vec<Token>, Type), Error>)
        requires
            old(self).wf(),
        ensures
            match names_and_type(old(self).source(), old(self).cursor()) {
                Ok(((names, type_node), cursor)) => {
                    &&& result matches Ok(found) && found.0@.map_values(|name: Token| name@)
                        == names && found.1@ == type_node
                    &&& final(self).cursor() == cursor
                    &&& final(self).continues(*old(self))
                    &&& final(self).remaining() < old(self).remaining()
                    &&& type_node.value is String
                    &&& forall|i: int|
                        0 <= i < names.len() ==> (#[trigger] names[i]).value is String
                },
                Err(error) => result matches Err(raised) && raised@ == error,
            },
    {
        let ghost source = self.source();
        let mut names: Vec<Token> = Vec::new();
        names.push(self.current_token.clone());
        self.eat(TokenType::ID)?;
        let ghost first = names@.map_values(|name: Token| name@);
        let ghost from = self.cursor();
        assert(first =~= seq![old(self).cursor().token]);
        while self.current_token.type_ == TokenType::Comma
            invariant
                self.continues(*old(self)),
                self.source() == source,
                source == old(self).source(),
                self.remaining() < old(self).remaining(),
                forall|i: int| 0 <= i < names@.len() ==> (#[trigger] names@[i])@.value is String,
                first == seq![old(self).cursor().token],
                eaten(source, old(self).cursor(), TokenType::ID) == Ok::<Cursor, ErrorView>(from),
                more_names(source, first, from) == more_names(
                    source,
                    names@.map_values(|name: Token| name@),
                    self.cursor(),
                ),
            decreases self.remaining(),
        {
            let ghost before = names@.map_values(|name: Token| name@);
            self.eat(TokenType::Comma)?;
            names.push(self.current_token.clone());
            assert(names@.map_values(|name: Token| name@) =~= before.push(self.cursor().token));
            self.eat(TokenType::ID)?;
        }
        self.eat(TokenType::Colon)?;
        let type_node = self.type_spec()?;
        Ok((names, type_node))
    }

    /// variable_declaration : ID (COMMA ID)* COLON type_spec
    ///
    /// Appends one declaration for each of the names to `declarations`.
    fn variable_declaration(&mut self, declarations: &mut Vec<Node>) -> (result: Result<
        (),
        Error,
    >)
        requires
            old(self).wf(),
            all_well_formed(nodes_view(*old(declarations))),
        ensures
            match variable_declaration(old(self).source(), old(self).cursor()) {
                Ok((more, cursor)) => {
                    &&& result is Ok
                    &&& nodes_view(*final(declarations)) == nodes_view(*old(declarations)) + more
                    &&& final(self).cursor() == cursor
                    &&& final(self).continues(*old(self))
                    &&& final(self).remaining() < old(self).remaining()
                    &&& all_well_formed(nodes_view(*final(declarations)))
                },
                Err(error) => result matches Err(raised) && raised@ == error,
            },
    {
        let (names, type_node) = self.names_and_type()?;
        let ghost views = names@.map_values(|name: Token| name@);
        let ghost more = views.map_values(
            |name: TokenView|
                NodeView::VarDecl(VarView { token: name, value: name.value }, type_node@),
        );
        let mut i: usize = 0;
        assert(nodes_view(*declarations) =~= nodes_view(*old(declarations)) + more.take(0));
        while i < names.len()
            invariant
                i <= names@.len(),
                type_node@.value is String,
                views == names@.map_values(|name: Token| name@),
                more == views.map_values(
                    |name: TokenView|
                        NodeView::VarDecl(VarView { token: name, value: name.value }, type_node@),
                ),
                forall|i: int| 0 <= i < views.len() ==> (#[trigger] views[i]).value is String,
                all_well_formed(nodes_view(*declarations)),
                nodes_view(*declarations) == nodes_view(*old(declarations)) + more.take(i as int),
            decreases names@.len() - i,
        {
            let var = Var::new(names[i].clone());
            assert(var@ == (VarView { token: views[i as int], value: views[i as int].value }));
            let declaration = Node::VarDecl(var, type_node.clone());
            assert(declaration@ == more[i as int]);
            push_node(declarations, declaration);
            assert(nodes_view(*declarations) =~= nodes_view(*old(declarations)) + more.take(
                i + 1,
            ));
            i += 1;
        }
        assert(more.take(i as int) =~= more);
        Ok(())
    }

    /// type_spec : INTEGER | REAL
    fn type_spec(&mut self) -> (result: Result<Type, Error>)
        requires
            old(self).wf(),
        ensures
            old(self).step(
                *final(self),
                type_outcome(result),
                type_spec(old(self).source(), old(self).cursor()),
            ),
            result matches Ok(type_node) ==> type_node@.value is String,
    {
        let token = self.current_token.clone();
        if token.type_ == TokenType::Integer {
            self.eat(TokenType::Integer)?;
        } else {
            self.eat(TokenType::Real)?;
        }
        Ok(Type::new(token))
    }

    /// formal_parameter_list : (formal_parameters (SEMI formal_parameters)*)?
    ///
    /// Appends the parameters to `params`, which must be empty.
    #[verifier::rlimit(50)]
    fn formal_parameter_list(&mut self, params: &mut Vec<Param>) -> (result: Result<(), Error>)
        requires
            old(self).wf(),
            old(params)@.len() == 0,
        ensures
            match formal_parameter_list(old(self).source(), old(self).cursor()) {
                Ok((found, cursor)) => result is Ok && params_view(*final(params)) == found
                    && final(self).cursor() == cursor && final(self).continues(*old(self))
                    && params_well_formed(found),
                Err(error) => result matches Err(raised) && raised@ == error,
            },
    {
        let ghost source = self.source();
        assert(params_view(*params) =~= Seq::<ParamView>::empty());
        if self.current_token.type_ == TokenType::ID {
            self.formal_parameters(params)?;
            let ghost first = params_view(*params);
            let ghost from = self.cursor();
            while self.current_token.type_ == TokenType::Semi
                invariant
                    self.continues(*old(self)),
                    self.source() == source,
                    source == old(self).source(),
                    params_well_formed(params_view(*params)),
                    old(self).cursor().token.type_ == TokenType::ID,
                    formal_parameters(source, old(self).cursor()) == Ok::<
                        (Seq<ParamView>, Cursor),
                        ErrorView,
                    >((first, from)),
                    more_parameters(source, first, from) == more_parameters(
                        source,
                        params_view(*params),
                        self.cursor(),
                    ),
                decreases self.remaining(),
            {
                self.eat(TokenType::Semi)?;
                self.formal_parameters(params)?;
            }
        }
        Ok(())
    }

    /// formal_parameters : ID (COMMA ID)* COLON type_spec
    ///
    /// Appends one parameter for each of the names to `params`.
    fn formal_parameters(&mut self, params: &mut Vec<Param>) -> (result: Result<(), Error>)
        requires
            old(self).wf(),
            params_well_formed(params_view(*old(params))),
        ensures
            match formal_parameters(old(self).source(), old(self).cursor()) {
                Ok((more, cursor)) => {
                    &&& result is Ok
                    &&& params_view(*final(params)) == params_view(*old(params)) + more
                    &&& final(self).cursor() == cursor
                    &&& final(self).continues(*old(self))
                    &&& final(self).remaining() < old(self).remaining()
                    &&& params_well_formed(params_view(*final(params)))
                },
                Err(error) => result matches Err(raised) && raised@ == error,
            },
    {
        let (names, type_node) = self.names_and_type()?;
        let ghost views = names@.map_values(|name: Token| name@);
        let ghost more = views.map_values(
            |name: TokenView|
                ParamView { var_node: VarView { token: name, value: name.value }, type_node: type_node@ },
        );
        let mut i: usize = 0;
        assert(params_view(*params) =~= params_view(*old(params)) + more.take(0));
        while i < names.len()
            invariant
                i <= names@.len(),
                type_node@.value is String,
                views == names@.map_values(|name: Token| name@),
                more == views.map_values(
                    |name: TokenView|
                        ParamView {
                            var_node: VarView { token: name, value: name.value },
                            type_node: type_node@,
                        },
                ),
                forall|i: int| 0 <= i < views.len() ==> (#[trigger] views[i]).value is String,
                params_well_formed(params_view(*params)),
                params_view(*params) == params_view(*old(params)) + more.take(i as int),
            decreases names@.len() - i,
        {
            let ghost before = params_view(*params);
            let var = Var::new(names[i].clone());
            assert(var@ == (VarView { token: views[i as int], value: views[i as int].value }));
            let param = Param::new(var, type_node.clone());
            assert(param@ == more[i as int]);
            params.push(param);
            assert(params_view(*params) =~= before.push(param@));
            assert(params_view(*params) =~= params_view(*old(params)) + more.take(i + 1));
            i += 1;
        }
        assert(more.take(i as int) =~= more);
        Ok(())
    }

    /// Parses a whole program, after which the text must end.
    pub fn parse(&mut self) -> (result: Result<Node, Error>)
        requires
            old(self).wf(),
        ensures
            old(self).step(
                *final(self),
                node_outcome(result),
                parsed(old(self).source(), old(self).cursor()),
            ),
            result matches Ok(node) ==> well_formed(node@) && node is Program,
    {
        let node = self.program()?;
        if self.current_token.type_ == TokenType::EOF {
            Ok(node)
        } else {
            Self::error(ErrorCode::UnexpectedToken, self.current_token.clone())
        }
    }
}

} // verus!
