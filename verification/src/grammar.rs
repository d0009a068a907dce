//! The CDL grammar, as functions from token sequences to syntax trees.
//!
//! ```text
//! Root    := (EOL | Entity)*
//! Entity  := Header Body
//! Header  := Identifier [Identifier] ['#' Identifier] [Reference]
//! Body    := '{' EOL (EOL | Field | Entity)* '}' (EOL | end of input)
//! Field   := Identifier ':' Expr EOL
//! Expr    := Term (('+' | '-') Term)*
//! Term    := Factor (('*' | '/') Factor)*
//! Factor  := Number | String | '(' Expr ')' | '-' Term
//!          | Identifier ':' Identifier | Identifier '(' ArgList ')' | Identifier
//! ArgList := (Expr (',' Expr)*)?
//! ```
//!
//! Each function reads a construct at the front of the tokens it is given and says how many
//! tokens the construct takes up.

use vstd::prelude::*;
use crate::ast::{SpecBody, SpecEntity, SpecExpr, SpecField, SpecHeader, SpecRoot, SpecVPath};
use crate::lex::Token;
use crate::text::after;

verus! {

/// The constructs that the parser may be looking for when it meets an unexpected token.
#[derive(Clone, Copy, Debug)]
pub enum Construct {
    /// A top-level entity or a blank line.
    Entity,
    /// The main type that starts an entity header.
    MainType,
    /// The identifier that follows `#` in an entity header.
    EntityIdentifier,
    /// A field, a nested entity or the closing brace of a body.
    BodyItem,
    /// The name of a field.
    FieldName,
    /// The start of a factor.
    Factor,
    /// The table of a path.
    PathTable,
    /// The field of a path.
    PathField,
    /// The name of a function.
    FunctionName,
}

/// What the parser was looking for.
pub enum Expectation {
    Token(Token),
    Construct(Construct),
}

/// Why a token sequence is no document.
pub enum SyntaxError {
    /// A token that the grammar does not allow where it stands; `found` is `None` at the end
    /// of the tokens.
    Unexpected { expected: Expectation, found: Option<Token> },
    /// The tokens ended where the parser had to look one token ahead.
    PastEnd,
}

/// How an error message names the token `token`.
pub open spec fn describe_token(token: Token) -> Seq<char> {
    match token {
        Token::Identifier(s) => "identifier "@ + s,
        Token::String(s) => "string "@ + s,
        Token::Reference(s) => "reference "@ + s,
        Token::Number(s) => "number "@ + s,
        Token::Colon => "':'"@,
        Token::Comma => "','"@,
        Token::OpenBracket => "'{'"@,
        Token::CloseBracket => "'}'"@,
        Token::OpenPar => "'('"@,
        Token::ClosePar => "')'"@,
        Token::Plus => "'+'"@,
        Token::Minus => "'-'"@,
        Token::Div => "'/'"@,
        Token::Mul => "'*'"@,
        Token::Hash => "'#'"@,
        Token::EOL => "end of line"@,
    }
}

/// How an error message names what was found: a token, or the end of the tokens.
pub open spec fn describe_found(found: Option<Token>) -> Seq<char> {
    match found {
        Some(token) => describe_token(token),
        None => "end of input"@,
    }
}

impl Construct {
    /// How an error message names the construct.
    pub open spec fn text(self) -> Seq<char> {
        match self {
            Construct::Entity => "an entity"@,
            Construct::MainType => "the main type of an entity"@,
            Construct::EntityIdentifier => "an identifier after '#'"@,
            Construct::BodyItem => "a field, an entity or '}'"@,
            Construct::FieldName => "a field name"@,
            Construct::Factor => "an expression"@,
            Construct::PathTable => "the table of a path"@,
            Construct::PathField => "the field of a path"@,
            Construct::FunctionName => "a function name"@,
        }
    }
}

impl Expectation {
    /// How an error message names what was expected.
    pub open spec fn text(self) -> Seq<char> {
        match self {
            Expectation::Token(token) => describe_token(token),
            Expectation::Construct(construct) => construct.text(),
        }
    }
}

impl SyntaxError {
    /// The message that the parser reports for this error.
    pub open spec fn message(self) -> Seq<char> {
        match self {
            SyntaxError::Unexpected { expected, found } => "Expected "@ + expected.text()
                + ", found "@ + describe_found(found),
            SyntaxError::PastEnd => "Trying to access token past end of stream"@,
        }
    }
}

/// A construct read from the front of a token sequence, with the number of tokens it takes
/// up; or the first syntax error.
pub type Parsed<T> = Result<(T, nat), SyntaxError>;

/// The token at position `i` of `t`, if there is one.
pub open spec fn token_at(t: Seq<Token>, i: nat) -> Option<Token> {
    if i < t.len() {
        Some(t[i as int])
    } else {
        None
    }
}

/// The error of meeting the token at position `i` of `t` while looking for `construct`.
pub open spec fn unexpected(construct: Construct, t: Seq<Token>, i: nat) -> SyntaxError {
    SyntaxError::Unexpected { expected: Expectation::Construct(construct), found: token_at(t, i) }
}

/// The error of meeting the token at position `i` of `t` where `token` must stand.
pub open spec fn missing(token: Token, t: Seq<Token>, i: nat) -> SyntaxError {
    SyntaxError::Unexpected { expected: Expectation::Token(token), found: token_at(t, i) }
}

/// `r`, read after `n` tokens that came before it.
pub open spec fn shifted<T>(r: Parsed<T>, n: nat) -> Parsed<T> {
    match r {
        Ok((value, m)) => Ok((value, n + m)),
        Err(e) => Err(e),
    }
}

/// The operation `left operator right`.
pub open spec fn binary(operator: char, left: SpecExpr, right: SpecExpr) -> SpecExpr {
    SpecExpr::Operator { operator, left: Box::new(left), right: Box::new(right) }
}

/// The negation `-operand`.
pub open spec fn negation(operand: SpecExpr) -> SpecExpr {
    SpecExpr::UnaryOperator { operator: '-', operand: Box::new(operand) }
}

/// The path `table:field`.
pub open spec fn path(table: Seq<char>, field: Seq<char>) -> SpecExpr {
    SpecExpr::VPath(
        SpecVPath { table: Some(table), sub_table: None, field: Some(field), sub_field: None },
    )
}

/// `Identifier ':' Identifier`.
pub open spec fn parse_vpath(t: Seq<Token>) -> Parsed<SpecExpr> {
    match token_at(t, 0) {
        Some(Token::Identifier(table)) => if token_at(t, 1) == Some(Token::Colon) {
            match token_at(t, 2) {
                Some(Token::Identifier(field)) => Ok((path(table, field), 3)),
                _ => Err(unexpected(Construct::PathField, t, 2)),
            }
        } else {
            Err(missing(Token::Colon, t, 1))
        },
        _ => Err(unexpected(Construct::PathTable, t, 0)),
    }
}

/// `Identifier '(' ArgList ')'`.
#[verifier::opaque]
pub open spec fn parse_function(t: Seq<Token>) -> Parsed<SpecExpr>
    decreases t.len(), 0nat,
{
    match token_at(t, 0) {
        Some(Token::Identifier(name)) => if token_at(t, 1) == Some(Token::OpenPar) {
            match parse_arg_list(after(t, 2)) {
                Ok((args, n)) => if token_at(t, 2 + n) == Some(Token::ClosePar) {
                    Ok((SpecExpr::Function { name, args }, n + 3))
                } else {
                    Err(missing(Token::ClosePar, t, 2 + n))
                },
                Err(e) => Err(e),
            }
        } else {
            Err(missing(Token::OpenPar, t, 1))
        },
        _ => Err(unexpected(Construct::FunctionName, t, 0)),
    }
}

/// `Factor`: a literal, a name, a path, a call, a parenthesised expression or a negated term.
#[verifier::opaque]
pub open spec fn parse_factor(t: Seq<Token>) -> Parsed<SpecExpr>
    decreases t.len(), 1nat,
{
    match token_at(t, 0) {
        Some(Token::Number(text)) => Ok((SpecExpr::Number(text), 1)),
        Some(Token::String(value)) => Ok((SpecExpr::String(value), 1)),
        Some(Token::Identifier(value)) => match token_at(t, 1) {
            None => Err(SyntaxError::PastEnd),
            Some(Token::Colon) => parse_vpath(t),
            Some(Token::OpenPar) => parse_function(t),
            Some(_) => Ok((SpecExpr::Identifier(value), 1)),
        },
        Some(Token::OpenPar) => match parse_expr(after(t, 1)) {
            Ok((e, n)) => if token_at(t, 1 + n) == Some(Token::ClosePar) {
                Ok((e, n + 2))
            } else {
                Err(missing(Token::ClosePar, t, 1 + n))
            },
            Err(e) => Err(e),
        },
        Some(Token::Minus) => match parse_term(after(t, 1)) {
            Ok((e, n)) => Ok((negation(e), n + 1)),
            Err(e) => Err(e),
        },
        _ => Err(unexpected(Construct::Factor, t, 0)),
    }
}

/// `(('*' | '/') Factor)*` behind the term `left`, which takes in each factor as its right
/// operand.
#[verifier::opaque]
pub open spec fn parse_term_rest(left: SpecExpr, t: Seq<Token>) -> Parsed<SpecExpr>
    decreases t.len(), 2nat,
{
    match token_at(t, 0) {
        Some(Token::Mul) => match parse_factor(after(t, 1)) {
            Ok((right, n)) => shifted(
                parse_term_rest(binary('*', left, right), after(t, 1 + n)),
                1 + n,
            ),
            Err(e) => Err(e),
        },
        Some(Token::Div) => match parse_factor(after(t, 1)) {
            Ok((right, n)) => shifted(
                parse_term_rest(binary('/', left, right), after(t, 1 + n)),
                1 + n,
            ),
            Err(e) => Err(e),
        },
        _ => Ok((left, 0)),
    }
}

/// `Term := Factor (('*' | '/') Factor)*`, left associative.
#[verifier::opaque]
pub open spec fn parse_term(t: Seq<Token>) -> Parsed<SpecExpr>
    decreases t.len(), 3nat,
{
    match parse_factor(t) {
        Ok((first, n)) => shifted(parse_term_rest(first, after(t, n)), n),
        Err(e) => Err(e),
    }
}

/// `(('+' | '-') Term)*` behind the expression `left`, which takes in each term as its right
/// operand.
#[verifier::opaque]
pub open spec fn parse_expr_rest(left: SpecExpr, t: Seq<Token>) -> Parsed<SpecExpr>
    decreases t.len(), 4nat,
{
    match token_at(t, 0) {
        Some(Token::Plus) => match parse_term(after(t, 1)) {
            Ok((right, n)) => shifted(
                parse_expr_rest(binary('+', left, right), after(t, 1 + n)),
                1 + n,
            ),
            Err(e) => Err(e),
        },
        Some(Token::Minus) => match parse_term(after(t, 1)) {
            Ok((right, n)) => shifted(
                parse_expr_rest(binary('-', left, right), after(t, 1 + n)),
                1 + n,
            ),
            Err(e) => Err(e),
        },
        _ => Ok((left, 0)),
    }
}

/// `Expr := Term (('+' | '-') Term)*`, left associative.
#[verifier::opaque]
pub open spec fn parse_expr(t: Seq<Token>) -> Parsed<SpecExpr>
    decreases t.len(), 5nat,
{
    match parse_term(t) {
        Ok((first, n)) => shifted(parse_expr_rest(first, after(t, n)), n),
        Err(e) => Err(e),
    }
}

/// `(',' Expr)*` behind the arguments `args`.
#[verifier::opaque]
pub open spec fn parse_more_args(args: Seq<SpecExpr>, t: Seq<Token>) -> Parsed<Seq<SpecExpr>>
    decreases t.len(), 6nat,
{
    if token_at(t, 0) == Some(Token::Comma) {
        match parse_expr(after(t, 1)) {
            Ok((arg, n)) => shifted(parse_more_args(args.push(arg), after(t, 1 + n)), 1 + n),
            Err(e) => Err(e),
        }
    } else {
        Ok((args, 0))
    }
}

/// `ArgList := (Expr (',' Expr)*)?`, up to the closing parenthesis, which it leaves.
#[verifier::opaque]
pub open spec fn parse_arg_list(t: Seq<Token>) -> Parsed<Seq<SpecExpr>>
    decreases t.len(), 7nat,
{
    if token_at(t, 0) == Some(Token::ClosePar) {
        Ok((Seq::empty(), 0))
    } else {
        match parse_expr(t) {
            Ok((first, n)) => shifted(parse_more_args(seq![first], after(t, n)), n),
            Err(e) => Err(e),
        }
    }
}

/// `Field := Identifier ':' Expr EOL`.
pub open spec fn parse_field(t: Seq<Token>) -> Parsed<SpecField> {
    match token_at(t, 0) {
        Some(Token::Identifier(identifier)) => if token_at(t, 1) == Some(Token::Colon) {
            match parse_expr(after(t, 2)) {
                Ok((value, n)) => if token_at(t, 2 + n) == Some(Token::EOL) {
                    Ok((SpecField { identifier, value }, n + 3))
                } else {
                    Err(missing(Token::EOL, t, 2 + n))
                },
                Err(e) => Err(e),
            }
        } else {
            Err(missing(Token::Colon, t, 1))
        },
        _ => Err(unexpected(Construct::FieldName, t, 0)),
    }
}

/// The sub type of the header at the front of `t`: the identifier behind the main type.
pub open spec fn header_sub_type(t: Seq<Token>) -> Option<Seq<char>> {
    match token_at(t, 1) {
        Some(Token::Identifier(sub_type)) => Some(sub_type),
        _ => None,
    }
}

/// `Header := Identifier [Identifier] ['#' Identifier] [Reference]`.
pub open spec fn parse_entity_header(t: Seq<Token>) -> Parsed<SpecHeader> {
    match token_at(t, 0) {
        Some(Token::Identifier(main_type)) => {
            let sub_type = header_sub_type(t);
            let at_hash: nat = if sub_type is Some {
                2
            } else {
                1
            };
            let hashed = token_at(t, at_hash) == Some(Token::Hash);
            let at_reference: nat = if hashed {
                at_hash + 2
            } else {
                at_hash
            };
            let identifier = match token_at(t, at_hash + 1) {
                Some(Token::Identifier(identifier)) if hashed => Some(identifier),
                _ => None,
            };
            let reference = match token_at(t, at_reference) {
                Some(Token::Reference(reference)) => Some(reference),
                _ => None,
            };
            let end: nat = if reference is Some {
                at_reference + 1
            } else {
                at_reference
            };
            if hashed && identifier is None {
                Err(unexpected(Construct::EntityIdentifier, t, at_hash + 1))
            } else {
                Ok((SpecHeader { main_type, sub_type, reference, identifier }, end))
            }
        },
        _ => Err(unexpected(Construct::MainType, t, 0)),
    }
}

/// `'{' EOL (EOL | Field | Entity)* '}' (EOL | end of input)`.
#[verifier::opaque]
pub open spec fn parse_entity_body(t: Seq<Token>) -> Parsed<SpecBody>
    decreases t.len(), 0nat,
{
    if token_at(t, 0) != Some(Token::OpenBracket) {
        Err(missing(Token::OpenBracket, t, 0))
    } else if token_at(t, 1) != Some(Token::EOL) {
        Err(missing(Token::EOL, t, 1))
    } else {
        shifted(parse_body_items(Seq::empty(), Seq::empty(), after(t, 2)), 2)
    }
}

/// `(EOL | Field | Entity)* '}' (EOL | end of input)` behind the fields and the children
/// that the body has so far. An identifier starts a field if a colon follows it, and a
/// nested entity (its header, then its body) if anything else does.
#[verifier::opaque]
pub open spec fn parse_body_items(
    fields: Seq<SpecField>,
    children: Seq<SpecEntity>,
    t: Seq<Token>,
) -> Parsed<SpecBody>
    decreases t.len(), 1nat,
{
    match token_at(t, 0) {
        Some(Token::CloseBracket) => match token_at(t, 1) {
            None => Ok((SpecBody { fields, children }, 1)),
            Some(Token::EOL) => Ok((SpecBody { fields, children }, 2)),
            Some(_) => Err(missing(Token::EOL, t, 1)),
        },
        Some(Token::EOL) => shifted(parse_body_items(fields, children, after(t, 1)), 1),
        Some(Token::Identifier(_)) => match token_at(t, 1) {
            None => Err(SyntaxError::PastEnd),
            Some(Token::Colon) => match parse_field(t) {
                Ok((field, n)) => shifted(
                    parse_body_items(fields.push(field), children, after(t, n)),
                    n,
                ),
                Err(e) => Err(e),
            },
            Some(_) => match parse_entity_header(t) {
                Ok((header, n)) => match parse_entity_body(after(t, n)) {
                    Ok((body, m)) => shifted(
                        parse_body_items(
                            fields,
                            children.push(SpecEntity { header, body }),
                            after(t, n + m),
                        ),
                        n + m,
                    ),
                    Err(e) => Err(e),
                },
                Err(e) => Err(e),
            },
        },
        _ => Err(unexpected(Construct::BodyItem, t, 0)),
    }
}

/// `Entity := Header Body`.
pub open spec fn parse_entity(t: Seq<Token>) -> Parsed<SpecEntity> {
    match parse_entity_header(t) {
        Ok((header, n)) => match parse_entity_body(after(t, n)) {
            Ok((body, m)) => Ok((SpecEntity { header, body }, n + m)),
            Err(e) => Err(e),
        },
        Err(e) => Err(e),
    }
}

/// `(EOL | Entity)*` behind the entities that the document has so far.
#[verifier::opaque]
pub open spec fn parse_entities(entities: Seq<SpecEntity>, t: Seq<Token>) -> Result<
    SpecRoot,
    SyntaxError,
>
    decreases t.len(),
{
    match token_at(t, 0) {
        None => Ok(SpecRoot { children: entities }),
        Some(Token::EOL) => parse_entities(entities, after(t, 1)),
        Some(Token::Identifier(_)) => match parse_entity(t) {
            Ok((entity, n)) => parse_entities(entities.push(entity), after(t, n)),
            Err(e) => Err(e),
        },
        Some(_) => Err(unexpected(Construct::Entity, t, 0)),
    }
}

/// `Root := (EOL | Entity)*`: the document that the tokens `t` spell, or the first syntax
/// error.
pub open spec fn parse_root(t: Seq<Token>) -> Result<SpecRoot, SyntaxError> {
    parse_entities(Seq::empty(), t)
}

/// A call is read by its rule.
pub proof fn lemma_parse_function(t: Seq<Token>)
    ensures
        parse_function(t) == ({
            match token_at(t, 0) {
                Some(Token::Identifier(name)) => if token_at(t, 1) == Some(Token::OpenPar) {
                    match parse_arg_list(after(t, 2)) {
                        Ok((args, n)) => if token_at(t, 2 + n) == Some(Token::ClosePar) {
                            Ok(((SpecExpr::Function { name, args }), n + 3))
                        } else {
                            Err(missing(Token::ClosePar, t, 2 + n))
                        },
                        Err(e) => Err(e),
                    }
                } else {
                    Err(missing(Token::OpenPar, t, 1))
                },
                _ => Err(unexpected(Construct::FunctionName, t, 0)),
            }
        }),
{
    reveal(parse_function);
    reveal(parse_factor);
    reveal(parse_term_rest);
    reveal(parse_term);
    reveal(parse_expr_rest);
    reveal(parse_expr);
    reveal(parse_more_args);
    reveal(parse_arg_list);
}

/// A factor is read by its rule.
pub proof fn lemma_parse_factor(t: Seq<Token>)
    ensures
        parse_factor(t) == ({
            match token_at(t, 0) {
                Some(Token::Number(text)) => Ok((SpecExpr::Number(text), 1)),
                Some(Token::String(value)) => Ok((SpecExpr::String(value), 1)),
                Some(Token::Identifier(value)) => match token_at(t, 1) {
                    None => Err(SyntaxError::PastEnd),
                    Some(Token::Colon) => parse_vpath(t),
                    Some(Token::OpenPar) => parse_function(t),
                    Some(_) => Ok((SpecExpr::Identifier(value), 1)),
                },
                Some(Token::OpenPar) => match parse_expr(after(t, 1)) {
                    Ok((e, n)) => if token_at(t, 1 + n) == Some(Token::ClosePar) {
                        Ok((e, n + 2))
                    } else {
                        Err(missing(Token::ClosePar, t, 1 + n))
                    },
                    Err(e) => Err(e),
                },
                Some(Token::Minus) => match parse_term(after(t, 1)) {
                    Ok((e, n)) => Ok((negation(e), n + 1)),
                    Err(e) => Err(e),
                },
                _ => Err(unexpected(Construct::Factor, t, 0)),
            }
        }),
{
    reveal(parse_function);
    reveal(parse_factor);
    reveal(parse_term_rest);
    reveal(parse_term);
    reveal(parse_expr_rest);
    reveal(parse_expr);
    reveal(parse_more_args);
    reveal(parse_arg_list);
}

/// The factors behind a term are read by their rule.
pub proof fn lemma_parse_term_rest(left: SpecExpr, t: Seq<Token>)
    ensures
        parse_term_rest(left, t) == ({
            match token_at(t, 0) {
                Some(Token::Mul) => match parse_factor(after(t, 1)) {
                    Ok((right, n)) => shifted(
                        parse_term_rest(binary('*', left, right), after(t, 1 + n)),
                        1 + n,
                    ),
                    Err(e) => Err(e),
                },
                Some(Token::Div) => match parse_factor(after(t, 1)) {
                    Ok((right, n)) => shifted(
                        parse_term_rest(binary('/', left, right), after(t, 1 + n)),
                        1 + n,
                    ),
                    Err(e) => Err(e),
                },
                _ => Ok((left, 0)),
            }
        }),
{
    reveal(parse_function);
    reveal(parse_factor);
    reveal(parse_term_rest);
    reveal(parse_term);
    reveal(parse_expr_rest);
    reveal(parse_expr);
    reveal(parse_more_args);
    reveal(parse_arg_list);
}

/// A term is read by its rule.
pub proof fn lemma_parse_term(t: Seq<Token>)
    ensures
        parse_term(t) == ({
            match parse_factor(t) {
                Ok((first, n)) => shifted(parse_term_rest(first, after(t, n)), n),
                Err(e) => Err(e),
            }
        }),
{
    reveal(parse_function);
    reveal(parse_factor);
    reveal(parse_term_rest);
    reveal(parse_term);
    reveal(parse_expr_rest);
    reveal(parse_expr);
    reveal(parse_more_args);
    reveal(parse_arg_list);
}

/// The terms behind an expression are read by their rule.
pub proof fn lemma_parse_expr_rest(left: SpecExpr, t: Seq<Token>)
    ensures
        parse_expr_rest(left, t) == ({
            match token_at(t, 0) {
                Some(Token::Plus) => match parse_term(after(t, 1)) {
                    Ok((right, n)) => shifted(
                        parse_expr_rest(binary('+', left, right), after(t, 1 + n)),
                        1 + n,
                    ),
                    Err(e) => Err(e),
                },
                Some(Token::Minus) => match parse_term(after(t, 1)) {
                    Ok((right, n)) => shifted(
                        parse_expr_rest(binary('-', left, right), after(t, 1 + n)),
                        1 + n,
                    ),
                    Err(e) => Err(e),
                },
                _ => Ok((left, 0)),
            }
        }),
{
    reveal(parse_function);
    reveal(parse_factor);
    reveal(parse_term_rest);
    reveal(parse_term);
    reveal(parse_expr_rest);
    reveal(parse_expr);
    reveal(parse_more_args);
    reveal(parse_arg_list);
}

/// An expression is read by its rule.
pub proof fn lemma_parse_expr(t: Seq<Token>)
    ensures
        parse_expr(t) == ({
            match parse_term(t) {
                Ok((first, n)) => shifted(parse_expr_rest(first, after(t, n)), n),
                Err(e) => Err(e),
            }
        }),
{
    reveal(parse_function);
    reveal(parse_factor);
    reveal(parse_term_rest);
    reveal(parse_term);
    reveal(parse_expr_rest);
    reveal(parse_expr);
    reveal(parse_more_args);
    reveal(parse_arg_list);
}

/// The arguments behind the first are read by their rule.
pub proof fn lemma_parse_more_args(args: Seq<SpecExpr>, t: Seq<Token>)
    ensures
        parse_more_args(args, t) == ({
            if token_at(t, 0) == Some(Token::Comma) {
                match parse_expr(after(t, 1)) {
                    Ok((arg, n)) => shifted(
                        parse_more_args(args.push(arg), after(t, 1 + n)),
                        1 + n,
                    ),
                    Err(e) => Err(e),
                }
            } else {
                Ok((args, 0))
            }
        }),
{
    reveal(parse_function);
    reveal(parse_factor);
    reveal(parse_term_rest);
    reveal(parse_term);
    reveal(parse_expr_rest);
    reveal(parse_expr);
    reveal(parse_more_args);
    reveal(parse_arg_list);
}

/// A list of arguments is read by its rule.
pub proof fn lemma_parse_arg_list(t: Seq<Token>)
    ensures
        parse_arg_list(t) == ({
            if token_at(t, 0) == Some(Token::ClosePar) {
                Ok((Seq::empty(), 0))
            } else {
                match parse_expr(t) {
                    Ok((first, n)) => shifted(parse_more_args(seq![first], after(t, n)), n),
                    Err(e) => Err(e),
                }
            }
        }),
{
    reveal(parse_function);
    reveal(parse_factor);
    reveal(parse_term_rest);
    reveal(parse_term);
    reveal(parse_expr_rest);
    reveal(parse_expr);
    reveal(parse_more_args);
    reveal(parse_arg_list);
}

/// A body is read by its rule.
pub proof fn lemma_parse_entity_body(t: Seq<Token>)
    ensures
        parse_entity_body(t) == ({
            if token_at(t, 0) != Some(Token::OpenBracket) {
                Err(missing(Token::OpenBracket, t, 0))
            } else if token_at(t, 1) != Some(Token::EOL) {
                Err(missing(Token::EOL, t, 1))
            } else {
                shifted(parse_body_items(Seq::empty(), Seq::empty(), after(t, 2)), 2)
            }
        }),
{
    reveal(parse_entity_body);
    reveal(parse_body_items);
}

/// The items of a body are read by their rule.
pub proof fn lemma_parse_body_items(
    fields: Seq<SpecField>,
    children: Seq<SpecEntity>,
    t: Seq<Token>,
)
    ensures
        parse_body_items(fields, children, t) == ({
            match token_at(t, 0) {
                Some(Token::CloseBracket) => match token_at(t, 1) {
                    None => Ok(((SpecBody { fields, children }), 1)),
                    Some(Token::EOL) => Ok(((SpecBody { fields, children }), 2)),
                    Some(_) => Err(missing(Token::EOL, t, 1)),
                },
                Some(Token::EOL) => shifted(parse_body_items(fields, children, after(t, 1)), 1),
                Some(Token::Identifier(_)) => match token_at(t, 1) {
                    None => Err(SyntaxError::PastEnd),
                    Some(Token::Colon) => match parse_field(t) {
                        Ok((field, n)) => shifted(
                            parse_body_items(fields.push(field), children, after(t, n)),
                            n,
                        ),
                        Err(e) => Err(e),
                    },
                    Some(_) => match parse_entity_header(t) {
                        Ok((header, n)) => match parse_entity_body(after(t, n)) {
                            Ok((body, m)) => shifted(
                                parse_body_items(
                                    fields,
                                    children.push((SpecEntity { header, body })),
                                    after(t, n + m),
                                ),
                                n + m,
                            ),
                            Err(e) => Err(e),
                        },
                        Err(e) => Err(e),
                    },
                },
                _ => Err(unexpected(Construct::BodyItem, t, 0)),
            }
        }),
{
    reveal(parse_entity_body);
    reveal(parse_body_items);
}

/// The entities of a document are read by their rule.
pub proof fn lemma_parse_entities(entities: Seq<SpecEntity>, t: Seq<Token>)
    ensures
        parse_entities(entities, t) == ({
            match token_at(t, 0) {
                None => Ok((SpecRoot { children: entities })),
                Some(Token::EOL) => parse_entities(entities, after(t, 1)),
                Some(Token::Identifier(_)) => match parse_entity(t) {
                    Ok((entity, n)) => parse_entities(entities.push(entity), after(t, n)),
                    Err(e) => Err(e),
                },
                Some(_) => Err(unexpected(Construct::Entity, t, 0)),
            }
        }),
{
    reveal(parse_entities);
}

} // verus!
