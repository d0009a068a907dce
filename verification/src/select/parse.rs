//! The selector parser: selector tokens to a chain of steps.
//!
//! ```text
//! Selector := Step ('>' Step)*
//! Step     := [Identifier] ['[' Identifier ']'] ['.' Identifier]
//! ```

use vstd::prelude::*;
use vstd::string::StringExecFns;
use crate::ast::text_of;
use crate::select::lex::{selector_tokens_of, SelectorItem, SelectorToken};
use crate::text::after;

verus! {

/// One step of a selector, and the steps behind it. A part that is absent accepts anything.
#[derive(Debug)]
pub struct Selector {
    pub main_type: Option<String>,
    pub sub_type: Option<String>,
    pub identifier: Option<String>,
    pub child: Option<Box<Selector>>,
}

/// The model of one step of a selector.
pub struct Step {
    pub main_type: Option<Seq<char>>,
    pub sub_type: Option<Seq<char>>,
    pub identifier: Option<Seq<char>>,
}

/// The steps of the selector `selector`, the first one first.
pub open spec fn selector_steps(selector: Selector) -> Seq<Step>
    decreases selector,
{
    seq![selector.step()] + match selector.child {
        Some(child) => selector_steps(*child),
        None => Seq::empty(),
    }
}

impl Selector {
    /// The first step of the selector.
    pub open spec fn step(&self) -> Step {
        Step {
            main_type: text_of(self.main_type),
            sub_type: text_of(self.sub_type),
            identifier: text_of(self.identifier),
        }
    }
}

impl View for Selector {
    type V = Seq<Step>;

    open spec fn view(&self) -> Seq<Step> {
        selector_steps(*self)
    }
}

/// Why a sequence of selector tokens is no selector.
pub enum SelectorError {
    /// No identifier behind `[`.
    MissingSubType,
    /// No `]` behind the identifier in square brackets.
    MissingCloseSquare,
    /// No identifier behind `.`.
    MissingIdentifier,
    /// A token behind a step that is not `>`.
    MissingArrow,
}

impl SelectorError {
    /// The message that the selector parser reports for this error.
    pub open spec fn message(self) -> Seq<char> {
        match self {
            SelectorError::MissingSubType => "Expected an identifier inside square brackets"@,
            SelectorError::MissingCloseSquare => "Expected ']' after the sub type"@,
            SelectorError::MissingIdentifier => "Expected an identifier after '.'"@,
            SelectorError::MissingArrow => "Expected '>' between two steps"@,
        }
    }
}

/// The token at position `i` of `t`, if there is one.
pub open spec fn selector_token_at(t: Seq<SelectorToken>, i: nat) -> Option<SelectorToken> {
    if i < t.len() {
        Some(t[i as int])
    } else {
        None
    }
}

/// The main type of the step at the front of `t`: a leading identifier.
pub open spec fn step_main_type(t: Seq<SelectorToken>) -> Option<Seq<char>> {
    match selector_token_at(t, 0) {
        Some(SelectorToken::Identifier(main_type)) => Some(main_type),
        _ => None,
    }
}

/// `Step := [Identifier] ['[' Identifier ']'] ['.' Identifier]` at the front of `t`, with
/// the number of tokens it takes up.
pub open spec fn parse_step(t: Seq<SelectorToken>) -> Result<(Step, nat), SelectorError> {
    let main_type = step_main_type(t);
    let at_square: nat = if main_type is Some {
        1
    } else {
        0
    };
    let squared = selector_token_at(t, at_square) == Some(SelectorToken::OpenSquare);
    let sub_type = match selector_token_at(t, at_square + 1) {
        Some(SelectorToken::Identifier(sub_type)) if squared => Some(sub_type),
        _ => None,
    };
    let at_dot: nat = if squared {
        at_square + 3
    } else {
        at_square
    };
    let dotted = selector_token_at(t, at_dot) == Some(SelectorToken::Dot);
    let identifier = match selector_token_at(t, at_dot + 1) {
        Some(SelectorToken::Identifier(identifier)) if dotted => Some(identifier),
        _ => None,
    };
    let end: nat = if dotted {
        at_dot + 2
    } else {
        at_dot
    };
    if squared && sub_type is None {
        Err(SelectorError::MissingSubType)
    } else if squared && selector_token_at(t, at_square + 2) != Some(SelectorToken::CloseSquare) {
        Err(SelectorError::MissingCloseSquare)
    } else if dotted && identifier is None {
        Err(SelectorError::MissingIdentifier)
    } else {
        Ok((Step { main_type, sub_type, identifier }, end))
    }
}

/// `Selector := Step ('>' Step)*`: the steps that the tokens `t` spell, or the first error.
pub open spec fn parse_steps(t: Seq<SelectorToken>) -> Result<Seq<Step>, SelectorError>
    decreases t.len(),
{
    match parse_step(t) {
        Err(e) => Err(e),
        Ok((step, n)) => match selector_token_at(t, n) {
            None => Ok(seq![step]),
            Some(SelectorToken::Arrow) => match parse_steps(after(t, n + 1)) {
                Ok(rest) => Ok(seq![step] + rest),
                Err(e) => Err(e),
            },
            Some(_) => Err(SelectorError::MissingArrow),
        },
    }
}

/// A cursor over the tokens of a selector, and the parser that moves it.
#[derive(Debug)]
pub struct SelectorParser {
    tokens: Vec<SelectorItem>,
    index: usize,
}

impl SelectorParser {
    /// The tokens that the parser reads.
    pub closed spec fn tokens(&self) -> Seq<SelectorToken> {
        selector_tokens_of(self.tokens@)
    }

    /// How many tokens the cursor has passed.
    pub closed spec fn position(&self) -> nat {
        self.index as nat
    }

    /// The cursor stands on a token or just behind the last one.
    pub open spec fn well_formed(&self) -> bool {
        self.position() <= self.tokens().len()
    }

    /// The tokens from the cursor on.
    pub open spec fn remaining(&self) -> Seq<SelectorToken> {
        self.tokens().skip(self.position() as int)
    }

    /// A parser over `tokens`, with its cursor on the first of them.
    pub fn new(tokens: Vec<SelectorItem>) -> (parser: SelectorParser)
        ensures
            parser.tokens() == selector_tokens_of(tokens@),
            parser.position() == 0,
            parser.well_formed(),
    {
        SelectorParser { tokens, index: 0 }
    }

    /// How many tokens there are.
    fn get_length(&self) -> (n: usize)
        ensures
            n == self.tokens().len(),
    {
        self.tokens.len()
    }

    /// Whether the cursor stands on a token.
    fn has_items(&self) -> (b: bool)
        ensures
            b == (self.position() < self.tokens().len()),
    {
        self.index < self.get_length()
    }

    /// The token under the cursor, if the cursor stands on one.
    fn peek_current_token(&self) -> (current: Option<&SelectorItem>)
        requires
            self.well_formed(),
        ensures
            match current {
                Some(item) => selector_token_at(self.remaining(), 0) == Some(item@),
                None => selector_token_at(self.remaining(), 0) is None,
            },
    {
        if self.index < self.tokens.len() {
            Some(&self.tokens[self.index])
        } else {
            None
        }
    }

    /// Moves the cursor over one token.
    fn advance_stream(&mut self)
        requires
            old(self).position() < old(self).tokens().len(),
        ensures
            final(self).tokens() == old(self).tokens(),
            final(self).position() == old(self).position() + 1,
            final(self).well_formed(),
    {
        let length = self.tokens.len();
        assert(selector_tokens_of(self.tokens@).len() == length);
        self.index = self.index + 1;
    }

    /// Moves the cursor over the token under it if that token is `token`, and says whether it
    /// did.
    fn eat_token_if(&mut self, token: SelectorItem) -> (eaten: bool)
        requires
            old(self).well_formed(),
        ensures
            final(self).tokens() == old(self).tokens(),
            final(self).well_formed(),
            eaten == (selector_token_at(old(self).remaining(), 0) == Some(token@)),
            final(self).position() == old(self).position() + if eaten {
                1nat
            } else {
                0nat
            },
    {
        let matched = match self.peek_current_token() {
            Some(item) => *item == token,
            None => false,
        };
        if matched {
            self.advance_stream();
        }
        matched
    }

    /// Moves the cursor over the identifier under it, if there is one, and returns it.
    fn get_current_token(&mut self) -> (name: Option<String>)
        requires
            old(self).well_formed(),
        ensures
            final(self).tokens() == old(self).tokens(),
            final(self).well_formed(),
            match name {
                Some(s) => selector_token_at(old(self).remaining(), 0) == Some(
                    SelectorToken::Identifier(s@),
                ) && final(self).position() == old(self).position() + 1,
                None => !(selector_token_at(old(self).remaining(), 0) matches Some(
                    SelectorToken::Identifier(_),
                )) && final(self).position() == old(self).position(),
            },
    {
        let name = match self.peek_current_token() {
            Some(SelectorItem::Identifier(s)) => s.clone(),
            _ => {
                return None;
            },
        };
        self.advance_stream();
        Some(name)
    }

    /// `remaining` after the cursor has moved on by `n` tokens.
    proof fn lemma_moved(self, before: SelectorParser, n: nat)
        requires
            self.tokens() == before.tokens(),
            self.well_formed(),
            self.position() == before.position() + n,
        ensures
            self.remaining() == after(before.remaining(), n),
    {
        assert(self.remaining() =~= after(before.remaining(), n));
    }

    /// Parses the selector: `Step ('>' Step)*`.
    pub fn parse(self) -> (res: Result<Selector, String>)
        requires
            self.well_formed(),
        ensures
            match parse_steps(self.remaining()) {
                Ok(steps) => res matches Ok(selector) && selector@ == steps,
                Err(e) => res matches Err(message) && message@ == e.message(),
            },
    {
        let mut parser = self;
        parser.parse_chain()
    }

    /// `Step ('>' Step)*` from the cursor on.
    fn parse_chain(&mut self) -> (res: Result<Selector, String>)
        requires
            old(self).well_formed(),
        ensures
            final(self).tokens() == old(self).tokens(),
            final(self).well_formed(),
            match parse_steps(old(self).remaining()) {
                Ok(steps) => res matches Ok(selector) && selector@ == steps,
                Err(e) => res matches Err(message) && message@ == e.message(),
            },
        decreases old(self).tokens().len() - old(self).position(),
    {
        let mut res = match self.parse_step() {
            Ok(step) => step,
            Err(message) => {
                return Err(message);
            },
        };
        proof {
            self.lemma_moved(*old(self), (self.position() - old(self).position()) as nat);
        }
        if !self.has_items() {
            assert(res@ =~= seq![res.step()]);
            return Ok(res);
        }
        if !self.eat_token_if(SelectorItem::Arrow) {
            return Err(String::from_str("Expected '>' between two steps"));
        }
        proof {
            self.lemma_moved(*old(self), (self.position() - old(self).position()) as nat);
        }
        match self.parse_chain() {
            Ok(child) => {
                res.child = Some(Box::new(child));
                Ok(res)
            },
            Err(message) => Err(message),
        }
    }

    /// `Step := [Identifier] ['[' Identifier ']'] ['.' Identifier]`.
    fn parse_step(&mut self) -> (res: Result<Selector, String>)
        requires
            old(self).well_formed(),
        ensures
            final(self).tokens() == old(self).tokens(),
            final(self).well_formed(),
            match parse_step(old(self).remaining()) {
                Ok((step, n)) => res matches Ok(selector) && selector.step() == step
                    && selector.child is None && final(self).position() == old(self).position()
                    + n,
                Err(e) => res matches Err(message) && message@ == e.message(),
            },
    {
        let mut res = Selector { main_type: None, sub_type: None, identifier: None, child: None };
        res.main_type = self.get_current_token();
        proof {
            self.lemma_moved(*old(self), (self.position() - old(self).position()) as nat);
        }
        if self.eat_token_if(SelectorItem::OpenSquare) {
            proof {
                self.lemma_moved(*old(self), (self.position() - old(self).position()) as nat);
            }
            match self.get_current_token() {
                Some(ident) => {
                    res.sub_type = Some(ident);
                },
                None => {
                    return Err(String::from_str("Expected an identifier inside square brackets"));
                },
            }
            proof {
                self.lemma_moved(*old(self), (self.position() - old(self).position()) as nat);
            }
            if !self.eat_token_if(SelectorItem::CloseSquare) {
                return Err(String::from_str("Expected ']' after the sub type"));
            }
        }
        proof {
            self.lemma_moved(*old(self), (self.position() - old(self).position()) as nat);
        }
        if self.eat_token_if(SelectorItem::Dot) {
            proof {
                self.lemma_moved(*old(self), (self.position() - old(self).position()) as nat);
            }
            match self.get_current_token() {
                Some(ident) => {
                    res.identifier = Some(ident);
                },
                None => {
                    return Err(String::from_str("Expected an identifier after '.'"));
                },
            }
        }
        Ok(res)
    }
}

} // verus!
