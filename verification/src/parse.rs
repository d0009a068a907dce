//! The CDL parser: a recursive-descent parser over the tokens of a document, with one token
//! of lookahead.

use vstd::prelude::*;
use vstd::string::StringExecFns;
use crate::ast::{
    entities_view, exprs_view, fields_view, AstEntityBodyNode, AstEntityHeaderNode, AstEntityNode,
    AstFieldNode, AstFunctionNode, AstIdentifierNode, AstNumberNode, AstOperatorNode, AstRootNode,
    AstStringNode, AstUnaryOperatorNode, AstVPathNode, Expr, SpecExpr, SpecRoot,
};
use crate::grammar::{
    binary, describe_found, describe_token, lemma_parse_arg_list, lemma_parse_body_items,
    lemma_parse_entities, lemma_parse_entity_body, lemma_parse_expr, lemma_parse_expr_rest,
    lemma_parse_factor, lemma_parse_function, lemma_parse_more_args, lemma_parse_term,
    lemma_parse_term_rest, missing, parse_arg_list, parse_body_items, parse_entities, parse_entity,
    parse_entity_body, parse_entity_header, parse_expr, parse_expr_rest, parse_factor, parse_field,
    parse_function, parse_more_args, parse_root, parse_term, parse_term_rest, parse_vpath, shifted,
    token_at, unexpected, Construct, Parsed, SyntaxError,
};
use crate::lex::{tokens_of, tokens_well_formed, LexItem, Token};
use crate::text::after;

verus! {

/// The model of what a parsing method returns.
pub open spec fn result_view<T: View>(r: Result<T, String>) -> Result<T::V, Seq<char>> {
    match r {
        Ok(value) => Ok(value@),
        Err(message) => Err(message@),
    }
}

/// The model of what [`Parser::parse_arg_list`] returns.
pub open spec fn args_result_view(r: Result<Vec<Expr>, String>) -> Result<
    Seq<SpecExpr>,
    Seq<char>,
> {
    match r {
        Ok(args) => Ok(exprs_view(args@)),
        Err(message) => Err(message@),
    }
}

/// How an error message names `item`.
pub fn describe(item: &LexItem) -> (text: String)
    ensures
        text@ == describe_token(item@),
{
    match item {
        LexItem::Identifier(s) => {
            let mut text = String::from_str("identifier ");
            text.append(s.as_str());
            text
        },
        LexItem::String(s) => {
            let mut text = String::from_str("string ");
            text.append(s.as_str());
            text
        },
        LexItem::Reference(s) => {
            let mut text = String::from_str("reference ");
            text.append(s.as_str());
            text
        },
        LexItem::Number { real_text } => {
            let mut text = String::from_str("number ");
            text.append(real_text.as_str());
            text
        },
        LexItem::Colon => String::from_str("':'"),
        LexItem::Comma => String::from_str("','"),
        LexItem::OpenBracket => String::from_str("'{'"),
        LexItem::CloseBracket => String::from_str("'}'"),
        LexItem::OpenPar => String::from_str("'('"),
        LexItem::ClosePar => String::from_str("')'"),
        LexItem::Plus => String::from_str("'+'"),
        LexItem::Minus => String::from_str("'-'"),
        LexItem::Div => String::from_str("'/'"),
        LexItem::Mul => String::from_str("'*'"),
        LexItem::Hash => String::from_str("'#'"),
        LexItem::EOL => String::from_str("end of line"),
    }
}

/// How an error message names `construct`.
pub fn construct_text(construct: Construct) -> (text: &'static str)
    ensures
        text@ == construct.text(),
{
    match construct {
        Construct::Entity => "an entity",
        Construct::MainType => "the main type of an entity",
        Construct::EntityIdentifier => "an identifier after '#'",
        Construct::BodyItem => "a field, an entity or '}'",
        Construct::FieldName => "a field name",
        Construct::Factor => "an expression",
        Construct::PathTable => "the table of a path",
        Construct::PathField => "the field of a path",
        Construct::FunctionName => "a function name",
    }
}

/// The message for finding `found` where `expected` was looked for.
fn expected_message(expected: &str, found: Option<&LexItem>) -> (message: String)
    ensures
        message@ == "Expected "@ + expected@ + ", found "@ + describe_found(
            match found {
                Some(item) => Some(item@),
                None => None,
            },
        ),
{
    let mut message = String::from_str("Expected ");
    message.append(expected);
    message.append(", found ");
    match found {
        Some(item) => {
            let text = describe(item);
            message.append(text.as_str());
        },
        None => {
            message.append("end of input");
        },
    }
    message
}

/// The message of the error [`SyntaxError::PastEnd`].
fn past_end_message() -> (message: String)
    ensures
        message@ == SyntaxError::PastEnd.message(),
{
    String::from_str("Trying to access token past end of stream")
}

/// A cursor over the tokens of a document, and the parser that moves it.
#[derive(Debug)]
pub struct Parser {
    tokens: Vec<LexItem>,
    index: usize,
}

impl Parser {
    /// The tokens that the parser reads.
    pub closed spec fn tokens(&self) -> Seq<Token> {
        tokens_of(self.tokens@)
    }

    /// How many tokens the cursor has passed.
    pub closed spec fn position(&self) -> nat {
        self.index as nat
    }

    /// The cursor stands on a token or just behind the last one.
    pub open spec fn well_formed(&self) -> bool {
        self.position() <= self.tokens().len()
    }

    /// The tokens from the cursor on.
    pub open spec fn remaining(&self) -> Seq<Token> {
        self.tokens().skip(self.position() as int)
    }

    /// What a parsing method leaves behind: the same tokens; after success the cursor moved
    /// on by the tokens of the construct and `got` is the construct, after failure `got` is
    /// the error's message.
    pub open spec fn follows<V>(
        &self,
        before: Parser,
        expected: Parsed<V>,
        got: Result<V, Seq<char>>,
    ) -> bool {
        &&& self.tokens() == before.tokens()
        &&& self.well_formed()
        &&& match expected {
            Ok((value, n)) => got == Ok::<V, Seq<char>>(value) && self.position()
                == before.position() + n,
            Err(e) => got == Err::<V, Seq<char>>(e.message()),
        }
    }

    /// A parser over `tokens`, with its cursor on the first of them.
    pub fn new(tokens: Vec<LexItem>) -> (parser: Parser)
        ensures
            parser.tokens() == tokens_of(tokens@),
            parser.position() == 0,
            parser.well_formed(),
    {
        Parser { tokens, index: 0 }
    }

    /// How many tokens there are.
    fn get_length(&self) -> (n: usize)
        ensures
            n == self.tokens().len(),
    {
        self.tokens.len()
    }

    /// Whether the cursor stands on a token.
    fn has_items(&self) -> (b: bool)
        ensures
            b == (self.position() < self.tokens().len()),
    {
        self.index < self.get_length()
    }

    /// The token under the cursor, if the cursor stands on one.
    fn peek_current_token(&self) -> (current: Option<&LexItem>)
        requires
            self.well_formed(),
        ensures
            match current {
                Some(item) => token_at(self.remaining(), 0) == Some(item@),
                None => token_at(self.remaining(), 0) is None,
            },
    {
        if self.index < self.tokens.len() {
            Some(&self.tokens[self.index])
        } else {
            None
        }
    }

    /// The token behind the one under the cursor; an error if the tokens end before it.
    fn peek_next_token(&self) -> (next: Result<&LexItem, String>)
        requires
            self.well_formed(),
        ensures
            match next {
                Ok(item) => token_at(self.remaining(), 1) == Some(item@),
                Err(message) => token_at(self.remaining(), 1) is None && message@
                    == SyntaxError::PastEnd.message(),
            },
    {
        if self.index < self.tokens.len() && self.index + 1 < self.tokens.len() {
            Ok(&self.tokens[self.index + 1])
        } else {
            Err(past_end_message())
        }
    }

    /// Moves the cursor over one token.
    fn advance_stream(&mut self)
        requires
            old(self).position() < old(self).tokens().len(),
        ensures
            final(self).tokens() == old(self).tokens(),
            final(self).position() == old(self).position() + 1,
            final(self).well_formed(),
            final(self).remaining() == after(old(self).remaining(), 1),
    {
        let length = self.tokens.len();
        assert(tokens_of(self.tokens@).len() == length);
        self.index = self.index + 1;
        proof {
            assert(self.remaining() =~= after(old(self).remaining(), 1));
        }
    }

    /// Moves the cursor over the token under it if that token is `token`, and fails if it is
    /// another one or none.
    fn eat_token_if(&mut self, token: LexItem) -> (res: Result<(), String>)
        requires
            old(self).well_formed(),
        ensures
            final(self).tokens() == old(self).tokens(),
            final(self).well_formed(),
            token_at(old(self).remaining(), 0) == Some(token@) ==> (res is Ok && final(
                self).position() == old(self).position() + 1 && final(self).remaining() == after(
                old(self).remaining(),
                1,
            )),
            token_at(old(self).remaining(), 0) != Some(token@) ==> (res matches Err(message)
                && message@ == missing(token@, old(self).remaining(), 0).message()),
    {
        let found = self.peek_current_token();
        let matched = match found {
            Some(item) => *item == token,
            None => false,
        };
        if matched {
            self.advance_stream();
            Ok(())
        } else {
            let expected = describe(&token);
            Err(expected_message(expected.as_str(), found))
        }
    }

    /// The message for finding the token under the cursor where `construct` was looked for.
    fn unexpected_here(&self, construct: Construct) -> (message: String)
        requires
            self.well_formed(),
        ensures
            message@ == unexpected(construct, self.remaining(), 0).message(),
    {
        expected_message(construct_text(construct), self.peek_current_token())
    }

    /// `remaining` after the cursor has moved on by `n` tokens.
    proof fn lemma_moved(self, before: Parser, n: nat)
        requires
            self.tokens() == before.tokens(),
            self.well_formed(),
            self.position() == before.position() + n,
        ensures
            self.remaining() == after(before.remaining(), n),
    {
        assert(self.remaining() =~= after(before.remaining(), n));
    }

    /// Parses the document: `(EOL | Entity)*`.
    pub fn parse(self) -> (res: Result<AstRootNode, String>)
        requires
            self.well_formed(),
        ensures
            result_view(res) == match parse_root(self.remaining()) {
                Ok(root) => Ok::<SpecRoot, Seq<char>>(root),
                Err(e) => Err::<SpecRoot, Seq<char>>(e.message()),
            },
            tokens_well_formed(self.remaining()) ==> (res matches Ok(root) ==> root@.well_formed()),
    {
        proof {
            if tokens_well_formed(self.remaining()) {
                crate::roundtrip::wellformed::lemma_entities_well_formed(
                    Seq::empty(),
                    self.remaining(),
                );
            }
        }
        let mut parser = self;
        let mut root = AstRootNode { children: Vec::new() };
        assert(entities_view(root.children@) =~= Seq::empty());
        while parser.has_items()
            invariant
                parser.well_formed(),
                parse_entities(Seq::empty(), self.remaining()) == parse_entities(
                    entities_view(root.children@),
                    parser.remaining(),
                ),
            decreases parser.tokens().len() - parser.position(),
        {
            let ghost before = parser;
            let ghost children = entities_view(root.children@);
            proof {
                lemma_parse_entities(children, parser.remaining());
            }
            let at_line_end = match parser.peek_current_token() {
                Some(LexItem::EOL) => true,
                Some(LexItem::Identifier(_)) => false,
                _ => {
                    return Err(parser.unexpected_here(Construct::Entity));
                },
            };
            if at_line_end {
                parser.advance_stream();
            } else {
                match parser.parse_entity() {
                    Ok(entity) => {
                        root.children.push(entity);
                        proof {
                            parser.lemma_moved(before, parse_entity(before.remaining())->Ok_0.1);
                            assert(entities_view(root.children@) =~= children.push(entity@));
                        }
                    },
                    Err(message) => {
                        return Err(message);
                    },
                }
            }
        }
        proof {
            lemma_parse_entities(entities_view(root.children@), parser.remaining());
        }
        Ok(root)
    }

    /// `Entity := Header Body`.
    fn parse_entity(&mut self) -> (res: Result<AstEntityNode, String>)
        requires
            old(self).well_formed(),
        ensures
            final(self).follows(
                *old(self),
                parse_entity(old(self).remaining()),
                result_view(res),
            ),
        decreases old(self).tokens().len() - old(self).position(), 2nat,
    {
        let header = match self.parse_entity_header() {
            Ok(header) => header,
            Err(message) => {
                return Err(message);
            },
        };
        proof {
            self.lemma_moved(*old(self), parse_entity_header(old(self).remaining())->Ok_0.1);
        }
        let ghost middle = *self;
        let body = match self.parse_entity_body() {
            Ok(body) => body,
            Err(message) => {
                return Err(message);
            },
        };
        let node = AstEntityNode { header, body };
        Ok(node)
    }

    /// `Header := Identifier [Identifier] ['#' Identifier] [Reference]`.
    fn parse_entity_header(&mut self) -> (res: Result<AstEntityHeaderNode, String>)
        requires
            old(self).well_formed(),
        ensures
            final(self).follows(
                *old(self),
                parse_entity_header(old(self).remaining()),
                result_view(res),
            ),
    {
        let mut node = AstEntityHeaderNode::new();
        match self.peek_current_token() {
            Some(LexItem::Identifier(main_type)) => {
                node.main_type = main_type.clone();
            },
            _ => {
                return Err(self.unexpected_here(Construct::MainType));
            },
        }
        self.advance_stream();
        proof {
            self.lemma_moved(*old(self), 1);
        }
        match self.get_entity_subtype() {
            Some(sub_type) => {
                node.sub_type = Some(sub_type);
                self.advance_stream();
            },
            None => {},
        }
        proof {
            self.lemma_moved(*old(self), (self.position() - old(self).position()) as nat);
        }
        match self.get_entity_id() {
            Ok(Some(identifier)) => {
                node.identifier = Some(identifier);
            },
            Ok(None) => {},
            Err(message) => {
                return Err(message);
            },
        }
        proof {
            self.lemma_moved(*old(self), (self.position() - old(self).position()) as nat);
        }
        match self.get_entity_reference() {
            Some(reference) => {
                node.reference = Some(reference);
                self.advance_stream();
            },
            None => {},
        }
        Ok(node)
    }

    /// The identifier under the cursor, if there is one: the sub type of the header whose
    /// main type the cursor has passed.
    fn get_entity_subtype(&self) -> (sub_type: Option<String>)
        requires
            self.well_formed(),
        ensures
            match sub_type {
                Some(s) => token_at(self.remaining(), 0) == Some(Token::Identifier(s@)),
                None => !(token_at(self.remaining(), 0) matches Some(Token::Identifier(_))),
            },
    {
        match self.peek_current_token() {
            Some(LexItem::Identifier(s)) => Some(s.clone()),
            _ => None,
        }
    }

    /// The reference under the cursor, if there is one.
    fn get_entity_reference(&self) -> (reference: Option<String>)
        requires
            self.well_formed(),
        ensures
            match reference {
                Some(s) => token_at(self.remaining(), 0) == Some(Token::Reference(s@)),
                None => !(token_at(self.remaining(), 0) matches Some(Token::Reference(_))),
            },
    {
        match self.peek_current_token() {
            Some(LexItem::Reference(s)) => Some(s.clone()),
            _ => None,
        }
    }

    /// `['#' Identifier]`: the identifier of an entity, if a `#` stands under the cursor.
    fn get_entity_id(&mut self) -> (res: Result<Option<String>, String>)
        requires
            old(self).well_formed(),
        ensures
            final(self).tokens() == old(self).tokens(),
            final(self).well_formed(),
            match token_at(old(self).remaining(), 0) {
                Some(Token::Hash) => match token_at(old(self).remaining(), 1) {
                    Some(Token::Identifier(id)) => res matches Ok(Some(s)) && s@ == id && final(
                        self).position() == old(self).position() + 2,
                    _ => res matches Err(message) && message@ == unexpected(
                        Construct::EntityIdentifier,
                        old(self).remaining(),
                        1,
                    ).message(),
                },
                _ => res == Ok::<Option<String>, String>(None) && final(self).position()
                    == old(self).position(),
            },
    {
        match self.peek_current_token() {
            Some(LexItem::Hash) => {},
            _ => {
                return Ok(None);
            },
        }
        self.advance_stream();
        proof {
            self.lemma_moved(*old(self), 1);
        }
        let identifier = match self.peek_current_token() {
            Some(LexItem::Identifier(s)) => s.clone(),
            _ => {
                return Err(self.unexpected_here(Construct::EntityIdentifier));
            },
        };
        self.advance_stream();
        Ok(Some(identifier))
    }

    /// `Body := '{' EOL (EOL | Field | Entity)* '}' (EOL | end of input)`.
    fn parse_entity_body(&mut self) -> (res: Result<AstEntityBodyNode, String>)
        requires
            old(self).well_formed(),
        ensures
            final(self).follows(
                *old(self),
                parse_entity_body(old(self).remaining()),
                result_view(res),
            ),
        decreases old(self).tokens().len() - old(self).position(), 1nat,
    {
        proof {
            lemma_parse_entity_body(self.remaining());
        }
        match self.eat_token_if(LexItem::OpenBracket) {
            Ok(()) => {},
            Err(message) => {
                return Err(message);
            },
        }
        proof {
            self.lemma_moved(*old(self), 1);
        }
        match self.eat_token_if(LexItem::EOL) {
            Ok(()) => {},
            Err(message) => {
                return Err(message);
            },
        }
        proof {
            self.lemma_moved(*old(self), 2);
        }
        let mut fields: Vec<AstFieldNode> = Vec::new();
        let mut entities: Vec<AstEntityNode> = Vec::new();
        assert(fields_view(fields@) =~= Seq::empty());
        assert(entities_view(entities@) =~= Seq::empty());
        loop
            invariant
                self.well_formed(),
                self.tokens() == old(self).tokens(),
                old(self).position() + 2 <= self.position(),
                parse_entity_body(old(self).remaining()) == shifted(
                    parse_body_items(
                        fields_view(fields@),
                        entities_view(entities@),
                        self.remaining(),
                    ),
                    (self.position() - old(self).position()) as nat,
                ),
            decreases self.tokens().len() - self.position(),
        {
            let ghost before = *self;
            let ghost so_far = (self.position() - old(self).position()) as nat;
            let ghost fields_before = fields_view(fields@);
            let ghost entities_before = entities_view(entities@);
            proof {
                lemma_parse_body_items(fields_before, entities_before, self.remaining());
            }
            // are we done?
            let done = match self.peek_current_token() {
                Some(LexItem::CloseBracket) => true,
                _ => false,
            };
            if done {
                self.advance_stream();
                proof {
                    self.lemma_moved(before, 1);
                }
                if self.has_items() {
                    match self.eat_token_if(LexItem::EOL) {
                        Ok(()) => {},
                        Err(message) => {
                            return Err(message);
                        },
                    }
                }
                let body = AstEntityBodyNode { fields, children: entities };
                return Ok(body);
            }
            // skip blank lines
            let blank = match self.peek_current_token() {
                Some(LexItem::EOL) => true,
                _ => false,
            };
            if blank {
                self.advance_stream();
                continue ;
            }
            // try parsing the next line
            let is_identifier = match self.peek_current_token() {
                Some(LexItem::Identifier(_)) => true,
                _ => false,
            };
            if !is_identifier {
                return Err(self.unexpected_here(Construct::BodyItem));
            }
            let is_field = match self.peek_next_token() {
                Ok(LexItem::Colon) => true,
                Ok(_) => false,
                Err(message) => {
                    return Err(message);
                },
            };
            if is_field {
                match self.parse_field() {
                    Ok(field) => {
                        fields.push(field);
                        proof {
                            let n = parse_field(before.remaining())->Ok_0.1;
                            self.lemma_moved(before, n);
                            assert(fields_view(fields@) =~= fields_before.push(field@));
                        }
                    },
                    Err(message) => {
                        return Err(message);
                    },
                }
            } else {
                match self.parse_entity() {
                    Ok(entity) => {
                        entities.push(entity);
                        proof {
                            let n = parse_entity(before.remaining())->Ok_0.1;
                            self.lemma_moved(before, n);
                            assert(entities_view(entities@) =~= entities_before.push(entity@));
                        }
                    },
                    Err(message) => {
                        return Err(message);
                    },
                }
            }
        }
    }

    /// `Field := Identifier ':' Expr EOL`.
    fn parse_field(&mut self) -> (res: Result<AstFieldNode, String>)
        requires
            old(self).well_formed(),
        ensures
            final(self).follows(
                *old(self),
                parse_field(old(self).remaining()),
                result_view(res),
            ),
    {
        let identifier = match self.peek_current_token() {
            Some(LexItem::Identifier(name)) => name.clone(),
            _ => {
                return Err(self.unexpected_here(Construct::FieldName));
            },
        };
        self.advance_stream();
        proof {
            self.lemma_moved(*old(self), 1);
        }
        match self.eat_token_if(LexItem::Colon) {
            Ok(()) => {},
            Err(message) => {
                return Err(message);
            },
        }
        proof {
            self.lemma_moved(*old(self), 2);
        }
        let value = match self.parse_expr() {
            Ok(value) => value,
            Err(message) => {
                return Err(message);
            },
        };
        proof {
            self.lemma_moved(*old(self), (self.position() - old(self).position()) as nat);
        }
        match self.eat_token_if(LexItem::EOL) {
            Ok(()) => {},
            Err(message) => {
                return Err(message);
            },
        }
        Ok(AstFieldNode { identifier, value })
    }

    /// `Expr := Term (('+' | '-') Term)*`.
    fn parse_expr(&mut self) -> (res: Result<Expr, String>)
        requires
            old(self).well_formed(),
        ensures
            final(self).follows(*old(self), parse_expr(old(self).remaining()), result_view(res)),
        decreases old(self).tokens().len() - old(self).position(), 5nat,
    {
        proof {
            lemma_parse_expr(self.remaining());
        }
        let mut current_expr = match self.parse_term() {
            Ok(term) => term,
            Err(message) => {
                return Err(message);
            },
        };
        proof {
            self.lemma_moved(*old(self), (self.position() - old(self).position()) as nat);
        }
        loop
            invariant
                self.well_formed(),
                self.tokens() == old(self).tokens(),
                old(self).position() <= self.position(),
                parse_expr(old(self).remaining()) == shifted(
                    parse_expr_rest(current_expr@, self.remaining()),
                    (self.position() - old(self).position()) as nat,
                ),
            decreases self.tokens().len() - self.position(),
        {
            let ghost before = *self;
            let ghost left = current_expr@;
            proof {
                lemma_parse_expr_rest(left, self.remaining());
            }
            let operator: char = match self.peek_current_token() {
                Some(LexItem::Minus) => '-',
                Some(LexItem::Plus) => '+',
                _ => {
                    return Ok(current_expr);
                },
            };
            self.advance_stream();
            let right_side = match self.parse_term() {
                Ok(term) => term,
                Err(message) => {
                    return Err(message);
                },
            };
            proof {
                self.lemma_moved(before, (self.position() - before.position()) as nat);
            }
            current_expr = Expr::Operator(
                Box::new(AstOperatorNode { operator, left_side: current_expr, right_side }),
            );
            assert(current_expr@ == binary(operator, left, right_side@));
        }
    }

    /// `Term := Factor (('*' | '/') Factor)*`.
    fn parse_term(&mut self) -> (res: Result<Expr, String>)
        requires
            old(self).well_formed(),
        ensures
            final(self).follows(*old(self), parse_term(old(self).remaining()), result_view(res)),
        decreases old(self).tokens().len() - old(self).position(), 3nat,
    {
        proof {
            lemma_parse_term(self.remaining());
        }
        let mut current_expr = match self.parse_factor() {
            Ok(factor) => factor,
            Err(message) => {
                return Err(message);
            },
        };
        proof {
            self.lemma_moved(*old(self), (self.position() - old(self).position()) as nat);
        }
        loop
            invariant
                self.well_formed(),
                self.tokens() == old(self).tokens(),
                old(self).position() <= self.position(),
                parse_term(old(self).remaining()) == shifted(
                    parse_term_rest(current_expr@, self.remaining()),
                    (self.position() - old(self).position()) as nat,
                ),
            decreases self.tokens().len() - self.position(),
        {
            let ghost before = *self;
            let ghost left = current_expr@;
            proof {
                lemma_parse_term_rest(left, self.remaining());
            }
            let operator: char = match self.peek_current_token() {
                Some(LexItem::Mul) => '*',
                Some(LexItem::Div) => '/',
                _ => {
                    return Ok(current_expr);
                },
            };
            self.advance_stream();
            let right_side = match self.parse_factor() {
                Ok(factor) => factor,
                Err(message) => {
                    return Err(message);
                },
            };
            proof {
                self.lemma_moved(before, (self.position() - before.position()) as nat);
            }
            current_expr = Expr::Operator(
                Box::new(AstOperatorNode { operator, left_side: current_expr, right_side }),
            );
            assert(current_expr@ == binary(operator, left, right_side@));
        }
    }

    /// `Factor`: a literal, a name, a path, a call, a parenthesised expression or a negated
    /// term.
    fn parse_factor(&mut self) -> (res: Result<Expr, String>)
        requires
            old(self).well_formed(),
        ensures
            final(self).follows(
                *old(self),
                parse_factor(old(self).remaining()),
                result_view(res),
            ),
        decreases old(self).tokens().len() - old(self).position(), 1nat,
    {
        proof {
            lemma_parse_factor(self.remaining());
        }
        match self.peek_current_token() {
            Some(LexItem::Number { real_text }) => {
                let text_rep = real_text.clone();
                self.advance_stream();
                Ok(Expr::Number(Box::new(AstNumberNode::new(text_rep))))
            },
            Some(LexItem::String(s)) => {
                let value = s.clone();
                self.advance_stream();
                Ok(Expr::String(Box::new(AstStringNode { value })))
            },
            Some(LexItem::Identifier(s)) => {
                let value = s.clone();
                match self.peek_next_token() {
                    Ok(LexItem::Colon) => self.parse_vpath(),
                    Ok(LexItem::OpenPar) => self.parse_function(),
                    Ok(_) => {
                        self.advance_stream();
                        Ok(Expr::Identifier(Box::new(AstIdentifierNode { value })))
                    },
                    Err(message) => Err(message),
                }
            },
            Some(LexItem::OpenPar) => {
                self.advance_stream();
                let expr = match self.parse_expr() {
                    Ok(expr) => expr,
                    Err(message) => {
                        return Err(message);
                    },
                };
                proof {
                    self.lemma_moved(
                        *old(self),
                        (self.position() - old(self).position()) as nat,
                    );
                }
                match self.eat_token_if(LexItem::ClosePar) {
                    Ok(()) => Ok(expr),
                    Err(message) => Err(message),
                }
            },
            Some(LexItem::Minus) => {
                self.advance_stream();
                let term = match self.parse_term() {
                    Ok(term) => term,
                    Err(message) => {
                        return Err(message);
                    },
                };
                Ok(
                    Expr::UnaryOperator(
                        Box::new(AstUnaryOperatorNode { operator: '-', expr: term }),
                    ),
                )
            },
            _ => Err(self.unexpected_here(Construct::Factor)),
        }
    }

    /// `Identifier ':' Identifier`.
    fn parse_vpath(&mut self) -> (res: Result<Expr, String>)
        requires
            old(self).well_formed(),
        ensures
            final(self).follows(
                *old(self),
                parse_vpath(old(self).remaining()),
                result_view(res),
            ),
    {
        let source = match self.peek_current_token() {
            Some(LexItem::Identifier(s)) => s.clone(),
            _ => {
                return Err(self.unexpected_here(Construct::PathTable));
            },
        };
        self.advance_stream();
        proof {
            self.lemma_moved(*old(self), 1);
        }
        match self.eat_token_if(LexItem::Colon) {
            Ok(()) => {},
            Err(message) => {
                return Err(message);
            },
        }
        proof {
            self.lemma_moved(*old(self), 2);
        }
        let question = match self.peek_current_token() {
            Some(LexItem::Identifier(s)) => s.clone(),
            _ => {
                return Err(self.unexpected_here(Construct::PathField));
            },
        };
        self.advance_stream();
        Ok(
            Expr::VPath(
                Box::new(
                    AstVPathNode {
                        table: Some(source),
                        sub_table: None,
                        field: Some(question),
                        sub_field: None,
                    },
                ),
            ),
        )
    }

    /// `Identifier '(' ArgList ')'`.
    fn parse_function(&mut self) -> (res: Result<Expr, String>)
        requires
            old(self).well_formed(),
        ensures
            final(self).follows(
                *old(self),
                parse_function(old(self).remaining()),
                result_view(res),
            ),
        decreases old(self).tokens().len() - old(self).position(), 0nat,
    {
        proof {
            lemma_parse_function(self.remaining());
        }
        let name = match self.peek_current_token() {
            Some(LexItem::Identifier(s)) => s.clone(),
            _ => {
                return Err(self.unexpected_here(Construct::FunctionName));
            },
        };
        self.advance_stream();
        proof {
            self.lemma_moved(*old(self), 1);
        }
        match self.eat_token_if(LexItem::OpenPar) {
            Ok(()) => {},
            Err(message) => {
                return Err(message);
            },
        }
        proof {
            self.lemma_moved(*old(self), 2);
        }
        let arg_list = match self.parse_arg_list() {
            Ok(arg_list) => arg_list,
            Err(message) => {
                return Err(message);
            },
        };
        proof {
            self.lemma_moved(*old(self), (self.position() - old(self).position()) as nat);
        }
        match self.eat_token_if(LexItem::ClosePar) {
            Ok(()) => {},
            Err(message) => {
                return Err(message);
            },
        }
        let node = AstFunctionNode { identifier: name, argument_list: arg_list };
        Ok(Expr::Function(Box::new(node)))
    }

    /// `ArgList := (Expr (',' Expr)*)?`, up to the closing parenthesis, which it leaves.
    fn parse_arg_list(&mut self) -> (res: Result<Vec<Expr>, String>)
        requires
            old(self).well_formed(),
        ensures
            final(self).follows(
                *old(self),
                parse_arg_list(old(self).remaining()),
                args_result_view(res),
            ),
        decreases old(self).tokens().len() - old(self).position(), 7nat,
    {
        proof {
            lemma_parse_arg_list(self.remaining());
        }
        let mut args: Vec<Expr> = Vec::new();
        let empty = match self.peek_current_token() {
            Some(LexItem::ClosePar) => true,
            _ => false,
        };
        if empty {
            assert(exprs_view(args@) =~= Seq::empty());
            return Ok(args);
        }
        match self.parse_expr() {
            Ok(first) => {
                args.push(first);
                assert(exprs_view(args@) =~= seq![first@]);
            },
            Err(message) => {
                return Err(message);
            },
        }
        proof {
            self.lemma_moved(*old(self), (self.position() - old(self).position()) as nat);
        }
        loop
            invariant
                self.well_formed(),
                self.tokens() == old(self).tokens(),
                old(self).position() <= self.position(),
                parse_arg_list(old(self).remaining()) == shifted(
                    parse_more_args(exprs_view(args@), self.remaining()),
                    (self.position() - old(self).position()) as nat,
                ),
            decreases self.tokens().len() - self.position(),
        {
            let ghost before = *self;
            let ghost args_before = exprs_view(args@);
            proof {
                lemma_parse_more_args(args_before, self.remaining());
            }
            let more = match self.peek_current_token() {
                Some(LexItem::Comma) => true,
                _ => false,
            };
            if !more {
                return Ok(args);
            }
            self.advance_stream();
            match self.parse_expr() {
                Ok(arg) => {
                    args.push(arg);
                    assert(exprs_view(args@) =~= args_before.push(arg@));
                },
                Err(message) => {
                    return Err(message);
                },
            }
            proof {
                self.lemma_moved(before, (self.position() - before.position()) as nat);
            }
        }
    }
}

} // verus!
