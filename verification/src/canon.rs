//! The canonical spelling of a syntax tree in tokens: the tokens of its printed text.

use vstd::prelude::*;
use crate::ast::{SpecEntity, SpecExpr, SpecField, SpecHeader, SpecRoot};
use crate::lex::Token;
use crate::print::optional;
use crate::text::{concat, join};

verus! {

/// The token of the binary operator `operator`.
pub open spec fn operator_token(operator: char) -> Token {
    if operator == '+' {
        Token::Plus
    } else if operator == '-' {
        Token::Minus
    } else if operator == '*' {
        Token::Mul
    } else {
        Token::Div
    }
}

/// The tokens of the expression `e`, without parentheses around any operation.
pub open spec fn expr_tokens(e: SpecExpr) -> Seq<Token>
    decreases e,
{
    match e {
        SpecExpr::String(value) => seq![Token::String(value)],
        SpecExpr::Identifier(value) => seq![Token::Identifier(value)],
        SpecExpr::Number(text) => seq![Token::Number(text)],
        SpecExpr::Function { name, args } => seq![Token::Identifier(name), Token::OpenPar] + join(
            each_expr_tokens(args),
            seq![Token::Comma],
        ) + seq![Token::ClosePar],
        SpecExpr::VPath(path) => seq![
            Token::Identifier(optional(path.table)),
            Token::Colon,
            Token::Identifier(optional(path.field)),
        ],
        SpecExpr::Operator { operator, left, right } => expr_tokens(*left) + seq![
            operator_token(operator),
        ] + expr_tokens(*right),
        SpecExpr::UnaryOperator { operator, operand } => seq![Token::Minus] + expr_tokens(
            *operand,
        ),
    }
}

/// The tokens of each of the expressions `args`, in order.
pub open spec fn each_expr_tokens(args: Seq<SpecExpr>) -> Seq<Seq<Token>>
    decreases args,
{
    Seq::new(
        args.len(),
        |i: int|
            if 0 <= i < args.len() {
                expr_tokens(args[i])
            } else {
                Seq::empty()
            },
    )
}

/// The tokens of the header `header`.
pub open spec fn header_tokens(header: SpecHeader) -> Seq<Token> {
    seq![Token::Identifier(header.main_type)] + (match header.sub_type {
        Some(sub_type) => seq![Token::Identifier(sub_type)],
        None => Seq::empty(),
    }) + (match header.identifier {
        Some(identifier) => seq![Token::Hash, Token::Identifier(identifier)],
        None => Seq::empty(),
    }) + (match header.reference {
        Some(reference) => seq![Token::Reference(reference)],
        None => Seq::empty(),
    })
}

/// The tokens of the line of the field `field`.
pub open spec fn field_tokens(field: SpecField) -> Seq<Token> {
    seq![Token::Identifier(field.identifier), Token::Colon] + expr_tokens(field.value) + seq![
        Token::EOL,
    ]
}

/// The tokens of the lines of each of the fields `fields`, in order.
pub open spec fn each_field_tokens(fields: Seq<SpecField>) -> Seq<Seq<Token>> {
    Seq::new(fields.len(), |i: int| field_tokens(fields[i]))
}

/// The tokens of the lines of the entity `e`: its header, its fields, its children, its
/// closing brace.
pub open spec fn entity_tokens(e: SpecEntity) -> Seq<Token>
    decreases e,
{
    header_tokens(e.header) + seq![Token::OpenBracket, Token::EOL] + concat(
        each_field_tokens(e.body.fields),
    ) + concat(each_entity_tokens(e.body.children)) + seq![Token::CloseBracket, Token::EOL]
}

/// The tokens of the lines of each of the entities `entities`, in order.
pub open spec fn each_entity_tokens(entities: Seq<SpecEntity>) -> Seq<Seq<Token>>
    decreases entities,
{
    Seq::new(
        entities.len(),
        |i: int|
            if 0 <= i < entities.len() {
                entity_tokens(entities[i])
            } else {
                Seq::empty()
            },
    )
}

/// The tokens of the printed text of the document `root`.
pub open spec fn root_tokens(root: SpecRoot) -> Seq<Token> {
    concat(each_entity_tokens(root.children))
}

} // verus!
