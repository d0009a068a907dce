//! What the compiler reads is well formed.

use vstd::prelude::*;
use crate::ast::{SpecEntity, SpecExpr, SpecField};
use crate::grammar::{
    binary, lemma_parse_arg_list, lemma_parse_body_items, lemma_parse_entities,
    lemma_parse_entity_body, lemma_parse_expr, lemma_parse_expr_rest, lemma_parse_factor,
    lemma_parse_function, lemma_parse_more_args, lemma_parse_term, lemma_parse_term_rest,
    parse_arg_list, parse_body_items, parse_entities, parse_entity, parse_entity_body,
    parse_entity_header, parse_expr, parse_expr_rest, parse_factor, parse_field, parse_function,
    parse_more_args, parse_term, parse_term_rest, token_at,
};
use crate::lex::{token_well_formed, tokens_well_formed, Token};
use crate::text::after;

verus! {

/// Whether every expression of `args` is well formed.
pub open spec fn exprs_well_formed(args: Seq<SpecExpr>) -> bool {
    forall|i: int| 0 <= i < args.len() ==> (#[trigger] args[i]).well_formed()
}

/// Whether every field of `fields` is well formed.
pub open spec fn fields_well_formed(fields: Seq<SpecField>) -> bool {
    forall|i: int| 0 <= i < fields.len() ==> (#[trigger] fields[i]).well_formed()
}

/// Whether every entity of `entities` is well formed.
pub open spec fn entities_well_formed(entities: Seq<SpecEntity>) -> bool {
    forall|i: int| 0 <= i < entities.len() ==> (#[trigger] entities[i]).well_formed()
}

/// What is left of well-formed tokens is well formed.
pub proof fn lemma_after_well_formed(t: Seq<Token>, n: nat)
    requires
        tokens_well_formed(t),
    ensures
        tokens_well_formed(after(t, n)),
{
    if n <= t.len() {
        assert forall|i: int| 0 <= i < after(t, n).len() implies token_well_formed(
            #[trigger] after(t, n)[i],
        ) by {
            assert(after(t, n)[i] == t[i + n]);
        }
    }
}

/// A call read from well-formed tokens is well formed.
pub proof fn lemma_function_well_formed(t: Seq<Token>)
    requires
        tokens_well_formed(t),
    ensures
        parse_function(t) matches Ok((e, n)) ==> e.well_formed(),
    decreases t.len(), 0nat,
{
    lemma_parse_function(t);
    if t.len() > 1 {
        assert(token_well_formed(t[0]));
        lemma_after_well_formed(t, 2);
        lemma_arg_list_well_formed(after(t, 2));
    }
}

/// A factor read from well-formed tokens is well formed.
pub proof fn lemma_factor_well_formed(t: Seq<Token>)
    requires
        tokens_well_formed(t),
    ensures
        parse_factor(t) matches Ok((e, n)) ==> e.well_formed(),
    decreases t.len(), 1nat,
{
    lemma_parse_factor(t);
    if t.len() > 0 {
        assert(token_well_formed(t[0]));
        lemma_after_well_formed(t, 1);
        match t[0] {
            Token::Identifier(_) => {
                if t.len() > 1 {
                    if t[1] is Colon {
                        if t.len() > 2 {
                            assert(token_well_formed(t[2]));
                        }
                    } else if t[1] is OpenPar {
                        lemma_function_well_formed(t);
                    }
                }
            },
            Token::OpenPar => {
                lemma_expr_well_formed(after(t, 1));
            },
            Token::Minus => {
                lemma_term_well_formed(after(t, 1));
            },
            _ => {},
        }
    }
}

/// A term that takes in factors read from well-formed tokens stays well formed.
pub proof fn lemma_term_rest_well_formed(left: SpecExpr, t: Seq<Token>)
    requires
        left.well_formed(),
        tokens_well_formed(t),
    ensures
        parse_term_rest(left, t) matches Ok((e, n)) ==> e.well_formed(),
    decreases t.len(), 2nat,
{
    lemma_parse_term_rest(left, t);
    if t.len() > 0 && (t[0] is Mul || t[0] is Div) {
        lemma_after_well_formed(t, 1);
        lemma_factor_well_formed(after(t, 1));
        if let Ok((right, n)) = parse_factor(after(t, 1)) {
            lemma_after_well_formed(t, 1 + n);
            let operator = if t[0] is Mul {
                '*'
            } else {
                '/'
            };
            lemma_term_rest_well_formed(binary(operator, left, right), after(t, 1 + n));
        }
    }
}

/// A term read from well-formed tokens is well formed.
pub proof fn lemma_term_well_formed(t: Seq<Token>)
    requires
        tokens_well_formed(t),
    ensures
        parse_term(t) matches Ok((e, n)) ==> e.well_formed(),
    decreases t.len(), 3nat,
{
    lemma_parse_term(t);
    lemma_factor_well_formed(t);
    if let Ok((first, n)) = parse_factor(t) {
        lemma_after_well_formed(t, n);
        lemma_term_rest_well_formed(first, after(t, n));
    }
}

/// An expression that takes in terms read from well-formed tokens stays well formed.
pub proof fn lemma_expr_rest_well_formed(left: SpecExpr, t: Seq<Token>)
    requires
        left.well_formed(),
        tokens_well_formed(t),
    ensures
        parse_expr_rest(left, t) matches Ok((e, n)) ==> e.well_formed(),
    decreases t.len(), 4nat,
{
    lemma_parse_expr_rest(left, t);
    if t.len() > 0 && (t[0] is Plus || t[0] is Minus) {
        lemma_after_well_formed(t, 1);
        lemma_term_well_formed(after(t, 1));
        if let Ok((right, n)) = parse_term(after(t, 1)) {
            lemma_after_well_formed(t, 1 + n);
            let operator = if t[0] is Plus {
                '+'
            } else {
                '-'
            };
            lemma_expr_rest_well_formed(binary(operator, left, right), after(t, 1 + n));
        }
    }
}

/// An expression read from well-formed tokens is well formed.
pub proof fn lemma_expr_well_formed(t: Seq<Token>)
    requires
        tokens_well_formed(t),
    ensures
        parse_expr(t) matches Ok((e, n)) ==> e.well_formed(),
    decreases t.len(), 5nat,
{
    lemma_parse_expr(t);
    lemma_term_well_formed(t);
    if let Ok((first, n)) = parse_term(t) {
        lemma_after_well_formed(t, n);
        lemma_expr_rest_well_formed(first, after(t, n));
    }
}

/// Arguments that take in expressions read from well-formed tokens stay well formed.
pub proof fn lemma_more_args_well_formed(args: Seq<SpecExpr>, t: Seq<Token>)
    requires
        exprs_well_formed(args),
        tokens_well_formed(t),
    ensures
        parse_more_args(args, t) matches Ok((all, n)) ==> exprs_well_formed(all),
    decreases t.len(), 6nat,
{
    lemma_parse_more_args(args, t);
    if t.len() > 0 && t[0] is Comma {
        lemma_after_well_formed(t, 1);
        lemma_expr_well_formed(after(t, 1));
        if let Ok((arg, n)) = parse_expr(after(t, 1)) {
            lemma_after_well_formed(t, 1 + n);
            assert forall|i: int| 0 <= i < args.push(arg).len() implies (#[trigger] args.push(
                arg,
            )[i]).well_formed() by {
                if i < args.len() {
                    assert(args.push(arg)[i] == args[i]);
                }
            }
            lemma_more_args_well_formed(args.push(arg), after(t, 1 + n));
        }
    }
}

/// Arguments read from well-formed tokens are well formed.
pub proof fn lemma_arg_list_well_formed(t: Seq<Token>)
    requires
        tokens_well_formed(t),
    ensures
        parse_arg_list(t) matches Ok((all, n)) ==> exprs_well_formed(all),
    decreases t.len(), 7nat,
{
    lemma_parse_arg_list(t);
    if token_at(t, 0) != Some(Token::ClosePar) {
        lemma_expr_well_formed(t);
        if let Ok((first, n)) = parse_expr(t) {
            lemma_after_well_formed(t, n);
            lemma_more_args_well_formed(seq![first], after(t, n));
        }
    }
}

/// A field read from well-formed tokens is well formed.
pub proof fn lemma_field_well_formed(t: Seq<Token>)
    requires
        tokens_well_formed(t),
    ensures
        parse_field(t) matches Ok((field, n)) ==> field.well_formed() && n >= 3,
{
    if t.len() > 1 {
        assert(token_well_formed(t[0]));
        lemma_after_well_formed(t, 2);
        lemma_expr_well_formed(after(t, 2));
    }
}

/// A header read from well-formed tokens is well formed and takes up a token or more.
pub proof fn lemma_header_well_formed(t: Seq<Token>)
    requires
        tokens_well_formed(t),
    ensures
        parse_entity_header(t) matches Ok((header, n)) ==> header.well_formed() && n >= 1,
{
    if t.len() > 0 {
        assert(token_well_formed(t[0]));
    }
    if t.len() > 1 {
        assert(token_well_formed(t[1]));
    }
    if t.len() > 2 {
        assert(token_well_formed(t[2]));
    }
    if t.len() > 3 {
        assert(token_well_formed(t[3]));
    }
    if t.len() > 4 {
        assert(token_well_formed(t[4]));
    }
}

/// A body read from well-formed tokens holds well-formed fields and children.
pub proof fn lemma_body_well_formed(t: Seq<Token>)
    requires
        tokens_well_formed(t),
    ensures
        parse_entity_body(t) matches Ok((body, n)) ==> fields_well_formed(body.fields)
            && entities_well_formed(body.children),
    decreases t.len(), 0nat,
{
    lemma_parse_entity_body(t);
    if t.len() > 1 {
        lemma_after_well_formed(t, 2);
        lemma_items_well_formed(Seq::empty(), Seq::empty(), after(t, 2));
    }
}

/// A body that takes in items read from well-formed tokens holds well-formed fields and
/// children.
pub proof fn lemma_items_well_formed(
    fields: Seq<SpecField>,
    children: Seq<SpecEntity>,
    t: Seq<Token>,
)
    requires
        fields_well_formed(fields),
        entities_well_formed(children),
        tokens_well_formed(t),
    ensures
        parse_body_items(fields, children, t) matches Ok((body, n)) ==> fields_well_formed(
            body.fields,
        ) && entities_well_formed(body.children),
    decreases t.len(), 1nat,
{
    lemma_parse_body_items(fields, children, t);
    if t.len() > 0 {
        match t[0] {
            Token::EOL => {
                lemma_after_well_formed(t, 1);
                lemma_items_well_formed(fields, children, after(t, 1));
            },
            Token::Identifier(_) => {
                if t.len() > 1 {
                    if t[1] is Colon {
                        lemma_field_well_formed(t);
                        if let Ok((field, n)) = parse_field(t) {
                            lemma_after_well_formed(t, n);
                            let more = fields.push(field);
                            assert forall|i: int| 0 <= i < more.len() implies (
                            #[trigger] more[i]).well_formed() by {
                                if i < fields.len() {
                                    assert(more[i] == fields[i]);
                                }
                            }
                            lemma_items_well_formed(more, children, after(t, n));
                        }
                    } else {
                        lemma_header_well_formed(t);
                        if let Ok((header, n)) = parse_entity_header(t) {
                            lemma_after_well_formed(t, n);
                            lemma_body_well_formed(after(t, n));
                            if let Ok((body, m)) = parse_entity_body(after(t, n)) {
                                lemma_after_well_formed(t, n + m);
                                let child = SpecEntity { header, body };
                                let more = children.push(child);
                                assert forall|i: int| 0 <= i < more.len() implies (
                                #[trigger] more[i]).well_formed() by {
                                    if i < children.len() {
                                        assert(more[i] == children[i]);
                                    }
                                }
                                lemma_items_well_formed(fields, more, after(t, n + m));
                            }
                        }
                    }
                }
            },
            _ => {},
        }
    }
}

/// An entity read from well-formed tokens is well formed and takes up a token or more.
pub proof fn lemma_entity_well_formed(t: Seq<Token>)
    requires
        tokens_well_formed(t),
    ensures
        parse_entity(t) matches Ok((entity, n)) ==> entity.well_formed() && n >= 1,
{
    lemma_header_well_formed(t);
    if let Ok((header, n)) = parse_entity_header(t) {
        lemma_after_well_formed(t, n);
        lemma_body_well_formed(after(t, n));
    }
}

/// A document that takes in entities read from well-formed tokens is well formed.
pub proof fn lemma_entities_well_formed(entities: Seq<SpecEntity>, t: Seq<Token>)
    requires
        entities_well_formed(entities),
        tokens_well_formed(t),
    ensures
        parse_entities(entities, t) matches Ok(root) ==> root.well_formed(),
    decreases t.len(),
{
    lemma_parse_entities(entities, t);
    if t.len() > 0 {
        match t[0] {
            Token::EOL => {
                lemma_after_well_formed(t, 1);
                lemma_entities_well_formed(entities, after(t, 1));
            },
            Token::Identifier(_) => {
                lemma_entity_well_formed(t);
                if let Ok((entity, n)) = parse_entity(t) {
                    lemma_after_well_formed(t, n);
                    let more = entities.push(entity);
                    assert forall|i: int| 0 <= i < more.len() implies (
                    #[trigger] more[i]).well_formed() by {
                        if i < entities.len() {
                            assert(more[i] == entities[i]);
                        }
                    }
                    lemma_entities_well_formed(more, after(t, n));
                }
            },
            _ => {},
        }
    }
}

} // verus!
