//! The selector lexer: selector text to tokens.

use vstd::prelude::*;
use vstd::std_specs::cmp::PartialEqSpecImpl;
use vstd::string::StringExecFns;
use crate::lex::{get_identifier, LexError};
use crate::text::{
    after, char_is_identifier_start, is_identifier_start, push_char, run_len, to_chars, CharClass,
};

verus! {

/// A token of a selector.
#[derive(Debug)]
pub enum SelectorItem {
    Identifier(String),
    Dot,
    OpenSquare,
    CloseSquare,
    Arrow,
}

/// The mathematical value of a [`SelectorItem`].
pub enum SelectorToken {
    Identifier(Seq<char>),
    Dot,
    OpenSquare,
    CloseSquare,
    Arrow,
}

impl View for SelectorItem {
    type V = SelectorToken;

    open spec fn view(&self) -> SelectorToken {
        match self {
            SelectorItem::Identifier(s) => SelectorToken::Identifier(s@),
            SelectorItem::Dot => SelectorToken::Dot,
            SelectorItem::OpenSquare => SelectorToken::OpenSquare,
            SelectorItem::CloseSquare => SelectorToken::CloseSquare,
            SelectorItem::Arrow => SelectorToken::Arrow,
        }
    }
}

impl PartialEq for SelectorItem {
    /// Tokens are equal if they are of the same kind and spell the same text.
    fn eq(&self, other: &SelectorItem) -> (equal: bool) {
        match self {
            SelectorItem::Identifier(a) => match other {
                SelectorItem::Identifier(b) => *a == *b,
                _ => false,
            },
            SelectorItem::Dot => matches!(other, SelectorItem::Dot),
            SelectorItem::OpenSquare => matches!(other, SelectorItem::OpenSquare),
            SelectorItem::CloseSquare => matches!(other, SelectorItem::CloseSquare),
            SelectorItem::Arrow => matches!(other, SelectorItem::Arrow),
        }
    }
}

impl PartialEqSpecImpl for SelectorItem {
    open spec fn obeys_eq_spec() -> bool {
        true
    }

    open spec fn eq_spec(&self, other: &SelectorItem) -> bool {
        self@ == other@
    }
}

/// The values of a sequence of selector tokens.
pub open spec fn selector_tokens_of(items: Seq<SelectorItem>) -> Seq<SelectorToken> {
    items.map_values(|item: SelectorItem| item@)
}

/// The selector token that the single character `c` spells, if it spells one.
pub open spec fn selector_punctuation(c: char) -> Option<SelectorToken> {
    if c == '.' {
        Some(SelectorToken::Dot)
    } else if c == '[' {
        Some(SelectorToken::OpenSquare)
    } else if c == ']' {
        Some(SelectorToken::CloseSquare)
    } else if c == '>' {
        Some(SelectorToken::Arrow)
    } else {
        None
    }
}

/// What stands at the front of the non-empty selector text `s`: a token, or a space
/// (`None`), with the number of characters it takes up; or the reason why nothing can be
/// read there.
pub open spec fn first_selector_token(s: Seq<char>) -> Result<
    (Option<SelectorToken>, nat),
    LexError,
>
    recommends
        s.len() > 0,
{
    let c = s[0];
    if is_identifier_start(c) {
        let n = 1 + run_len(s.skip(1), CharClass::Identifier);
        Ok((Some(SelectorToken::Identifier(s.take(n as int))), n))
    } else if c == ' ' {
        Ok((None, 1))
    } else {
        match selector_punctuation(c) {
            Some(token) => Ok((Some(token), 1)),
            None => Err(LexError::UnknownCharacter(c)),
        }
    }
}

/// `tokens` with everything that `rest` holds behind it; the error of `rest` if it is one.
pub open spec fn selector_followed_by(
    tokens: Seq<SelectorToken>,
    rest: Result<Seq<SelectorToken>, LexError>,
) -> Result<Seq<SelectorToken>, LexError> {
    match rest {
        Ok(more) => Ok(tokens + more),
        Err(e) => Err(e),
    }
}

/// The tokenisation of the selector text `s`: its tokens in order, or the first character
/// that belongs to none.
pub open spec fn selector_lex(s: Seq<char>) -> Result<Seq<SelectorToken>, LexError>
    decreases s.len(),
{
    if s.len() == 0 {
        Ok(Seq::empty())
    } else {
        match first_selector_token(s) {
            Err(e) => Err(e),
            Ok((Some(token), n)) => selector_followed_by(seq![token], selector_lex(after(s, n))),
            Ok((None, n)) => selector_lex(after(s, n)),
        }
    }
}

/// The selector token spelled by the single character `c`.
pub fn selector_punctuation_item(c: char) -> (item: Option<SelectorItem>)
    ensures
        match item {
            Some(t) => selector_punctuation(c) == Some(t@),
            None => selector_punctuation(c) is None,
        },
{
    if c == '.' {
        Some(SelectorItem::Dot)
    } else if c == '[' {
        Some(SelectorItem::OpenSquare)
    } else if c == ']' {
        Some(SelectorItem::CloseSquare)
    } else if c == '>' {
        Some(SelectorItem::Arrow)
    } else {
        None
    }
}

/// Tokenises the selector text `selector`: the tokens in order, or the message of the
/// lexical error.
pub fn lex_selector(selector: &str) -> (res: Result<Vec<SelectorItem>, String>)
    ensures
        match selector_lex(selector@) {
            Ok(tokens) => res matches Ok(items) && selector_tokens_of(items@) == tokens,
            Err(e) => res matches Err(message) && message@ == e.message(),
        },
{
    let chars = to_chars(selector);
    let mut result: Vec<SelectorItem> = Vec::new();
    let mut i: usize = 0;
    assert(chars@.skip(0) =~= chars@);
    assert(selector_tokens_of(result@) =~= Seq::<SelectorToken>::empty());
    assert(selector_followed_by(Seq::empty(), selector_lex(chars@)) == selector_lex(chars@)) by {
        if let Ok(more) = selector_lex(chars@) {
            assert(Seq::<SelectorToken>::empty() + more =~= more);
        }
    }
    while i < chars.len()
        invariant
            i <= chars.len(),
            chars@ == selector@,
            selector_lex(chars@) == selector_followed_by(
                selector_tokens_of(result@),
                selector_lex(chars@.skip(i as int)),
            ),
        decreases chars.len() - i,
    {
        let c = chars[i];
        let ghost here = chars@.skip(i as int);
        let ghost before = selector_tokens_of(result@);
        assert(here.len() > 0 && here[0] == c);
        let next: usize;
        if char_is_identifier_start(c) {
            let (text, end) = get_identifier(&chars, i);
            assert(here.take(end - i) =~= chars@.subrange(i as int, end as int));
            result.push(SelectorItem::Identifier(text));
            next = end;
        } else if c == ' ' {
            next = i + 1;
        } else {
            match selector_punctuation_item(c) {
                Some(item) => {
                    result.push(item);
                    next = i + 1;
                },
                None => {
                    let mut message = String::from_str("Unknown character ");
                    push_char(&mut message, c);
                    return Err(message);
                },
            }
        }
        proof {
            assert(after(here, (next - i) as nat) =~= chars@.skip(next as int));
            let tail = selector_lex(chars@.skip(next as int));
            if c != ' ' {
                let token = first_selector_token(here)->Ok_0.0->Some_0;
                assert(selector_tokens_of(result@) =~= before.push(token));
                if let Ok(more) = tail {
                    assert(before + (seq![token] + more) =~= before.push(token) + more);
                }
            }
        }
        i = next;
    }
    assert(chars@.skip(i as int) =~= Seq::<char>::empty());
    assert(selector_tokens_of(result@) + Seq::<SelectorToken>::empty() =~= selector_tokens_of(
        result@,
    ));
    Ok(result)
}

} // verus!
