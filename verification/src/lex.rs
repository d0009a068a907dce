//! The CDL lexer: source text to tokens.
//!
//! An identifier is `[A-Za-z_][A-Za-z0-9_]*`. A number is a digit and the digits and dots
//! that follow it; it is kept as it is spelled, and more than one dot in it is an error. A
//! reference is `@` and the letters, digits, underscores and dots that follow it, which may
//! be none. A string runs from a quote to the next quote, or to the end of the text if
//! there is none; nothing in it is escaped. Each of `{ } ( ) : , + - * / #` and the newline
//! is a token by itself. Spaces separate tokens. Any other character is an error.

use vstd::prelude::*;
use vstd::std_specs::cmp::PartialEqSpecImpl;
use vstd::string::StringExecFns;
use crate::text::{
    after, all_in_class, char_is_digit, char_is_identifier_start, count_char, in_class, is_digit,
    is_identifier, is_identifier_start, is_number, lemma_run_in_class, push_char, run_len, scan_run,
    string_of, to_chars, CharClass,
};

verus! {

/// A token of CDL source text, as the lexer hands it to the parser.
#[derive(Debug)]
pub enum LexItem {
    Identifier(String),
    String(String),
    Reference(String),
    /// A number, kept as it was spelled in the source.
    Number { real_text: String },
    Colon,
    Comma,
    OpenBracket,
    CloseBracket,
    OpenPar,
    ClosePar,
    Plus,
    Minus,
    Div,
    Mul,
    Hash,
    EOL,
}

/// The mathematical value of a [`LexItem`].
pub enum Token {
    Identifier(Seq<char>),
    String(Seq<char>),
    Reference(Seq<char>),
    Number(Seq<char>),
    Colon,
    Comma,
    OpenBracket,
    CloseBracket,
    OpenPar,
    ClosePar,
    Plus,
    Minus,
    Div,
    Mul,
    Hash,
    EOL,
}

impl View for LexItem {
    type V = Token;

    open spec fn view(&self) -> Token {
        match self {
            LexItem::Identifier(s) => Token::Identifier(s@),
            LexItem::String(s) => Token::String(s@),
            LexItem::Reference(s) => Token::Reference(s@),
            LexItem::Number { real_text } => Token::Number(real_text@),
            LexItem::Colon => Token::Colon,
            LexItem::Comma => Token::Comma,
            LexItem::OpenBracket => Token::OpenBracket,
            LexItem::CloseBracket => Token::CloseBracket,
            LexItem::OpenPar => Token::OpenPar,
            LexItem::ClosePar => Token::ClosePar,
            LexItem::Plus => Token::Plus,
            LexItem::Minus => Token::Minus,
            LexItem::Div => Token::Div,
            LexItem::Mul => Token::Mul,
            LexItem::Hash => Token::Hash,
            LexItem::EOL => Token::EOL,
        }
    }
}

impl PartialEq for LexItem {
    /// Tokens are equal if they are of the same kind and spell the same text.
    fn eq(&self, other: &LexItem) -> (equal: bool) {
        match self {
            LexItem::Identifier(a) => match other {
                LexItem::Identifier(b) => *a == *b,
                _ => false,
            },
            LexItem::String(a) => match other {
                LexItem::String(b) => *a == *b,
                _ => false,
            },
            LexItem::Reference(a) => match other {
                LexItem::Reference(b) => *a == *b,
                _ => false,
            },
            LexItem::Number { real_text: a } => match other {
                LexItem::Number { real_text: b } => *a == *b,
                _ => false,
            },
            LexItem::Colon => matches!(other, LexItem::Colon),
            LexItem::Comma => matches!(other, LexItem::Comma),
            LexItem::OpenBracket => matches!(other, LexItem::OpenBracket),
            LexItem::CloseBracket => matches!(other, LexItem::CloseBracket),
            LexItem::OpenPar => matches!(other, LexItem::OpenPar),
            LexItem::ClosePar => matches!(other, LexItem::ClosePar),
            LexItem::Plus => matches!(other, LexItem::Plus),
            LexItem::Minus => matches!(other, LexItem::Minus),
            LexItem::Div => matches!(other, LexItem::Div),
            LexItem::Mul => matches!(other, LexItem::Mul),
            LexItem::Hash => matches!(other, LexItem::Hash),
            LexItem::EOL => matches!(other, LexItem::EOL),
        }
    }
}

impl PartialEqSpecImpl for LexItem {
    open spec fn obeys_eq_spec() -> bool {
        true
    }

    open spec fn eq_spec(&self, other: &LexItem) -> bool {
        self@ == other@
    }
}

/// Whether the text of the token `token` is what its kind allows: an identifier, a decimal
/// literal, a text without quotes, a run of reference characters.
pub open spec fn token_well_formed(token: Token) -> bool {
    match token {
        Token::Identifier(text) => is_identifier(text),
        Token::Number(text) => is_number(text),
        Token::String(text) => all_in_class(text, CharClass::Quoted),
        Token::Reference(text) => all_in_class(text, CharClass::Reference),
        _ => true,
    }
}

/// Whether every token of `t` is well formed.
pub open spec fn tokens_well_formed(t: Seq<Token>) -> bool {
    forall|i: int| 0 <= i < t.len() ==> token_well_formed(#[trigger] t[i])
}

/// The values of a sequence of tokens.
pub open spec fn tokens_of(items: Seq<LexItem>) -> Seq<Token> {
    items.map_values(|item: LexItem| item@)
}

/// Why a text has no tokenisation.
pub enum LexError {
    /// A character that starts no token and is not a space.
    UnknownCharacter(char),
    /// A run of digits and dots with more than one dot in it.
    MalformedNumber(Seq<char>),
}

impl LexError {
    /// The message that the lexer reports for this error.
    pub open spec fn message(self) -> Seq<char> {
        match self {
            LexError::UnknownCharacter(c) => "Unknown character "@.push(c),
            LexError::MalformedNumber(text) => "Malformed number "@ + text,
        }
    }
}

/// The token that the single character `c` spells, if it spells one.
pub open spec fn punctuation(c: char) -> Option<Token> {
    if c == '{' {
        Some(Token::OpenBracket)
    } else if c == '}' {
        Some(Token::CloseBracket)
    } else if c == '(' {
        Some(Token::OpenPar)
    } else if c == ')' {
        Some(Token::ClosePar)
    } else if c == ':' {
        Some(Token::Colon)
    } else if c == ',' {
        Some(Token::Comma)
    } else if c == '+' {
        Some(Token::Plus)
    } else if c == '-' {
        Some(Token::Minus)
    } else if c == '*' {
        Some(Token::Mul)
    } else if c == '/' {
        Some(Token::Div)
    } else if c == '#' {
        Some(Token::Hash)
    } else if c == '\n' {
        Some(Token::EOL)
    } else {
        None
    }
}

/// What stands at the front of the non-empty text `s`: a token, or a space (`None`), with the
/// number of characters it takes up; or the reason why nothing can be read there.
pub open spec fn first_token(s: Seq<char>) -> Result<(Option<Token>, nat), LexError>
    recommends
        s.len() > 0,
{
    let c = s[0];
    if is_identifier_start(c) {
        let n = 1 + run_len(s.skip(1), CharClass::Identifier);
        Ok((Some(Token::Identifier(s.take(n as int))), n))
    } else if is_digit(c) {
        let n = 1 + run_len(s.skip(1), CharClass::Number);
        let text = s.take(n as int);
        if count_char(text, '.') <= 1 {
            Ok((Some(Token::Number(text)), n))
        } else {
            Err(LexError::MalformedNumber(text))
        }
    } else if c == '@' {
        let n = run_len(s.skip(1), CharClass::Reference);
        Ok((Some(Token::Reference(s.subrange(1, 1 + n as int))), 1 + n))
    } else if c == '"' {
        let n = run_len(s.skip(1), CharClass::Quoted);
        let closed = 1 + n < s.len();
        Ok(
            (
                Some(Token::String(s.subrange(1, 1 + n as int))),
                if closed {
                    n + 2
                } else {
                    n + 1
                },
            ),
        )
    } else if c == ' ' {
        Ok((None, 1))
    } else {
        match punctuation(c) {
            Some(token) => Ok((Some(token), 1)),
            None => Err(LexError::UnknownCharacter(c)),
        }
    }
}

/// `tokens` with everything that `rest` holds behind it; the error of `rest` if it is one.
pub open spec fn followed_by(tokens: Seq<Token>, rest: Result<Seq<Token>, LexError>) -> Result<
    Seq<Token>,
    LexError,
> {
    match rest {
        Ok(more) => Ok(tokens + more),
        Err(e) => Err(e),
    }
}

/// The tokenisation of `s`: its tokens in source order, or the first lexical error.
#[verifier::opaque]
pub open spec fn lex(s: Seq<char>) -> Result<Seq<Token>, LexError>
    decreases s.len(),
{
    if s.len() == 0 {
        Ok(Seq::empty())
    } else {
        match first_token(s) {
            Err(e) => Err(e),
            Ok((Some(token), n)) => followed_by(seq![token], lex(after(s, n))),
            Ok((None, n)) => lex(after(s, n)),
        }
    }
}

/// The tokenisation of a text is what stands at its front, then the tokenisation of what
/// follows that.
pub proof fn lemma_lex_unfold(s: Seq<char>)
    ensures
        lex(s) == if s.len() == 0 {
            Ok::<Seq<Token>, LexError>(Seq::empty())
        } else {
            match first_token(s) {
                Err(e) => Err(e),
                Ok((Some(token), n)) => followed_by(seq![token], lex(after(s, n))),
                Ok((None, n)) => lex(after(s, n)),
            }
        },
{
    reveal(lex);
}

/// What stands at the front of a text, if it is a token, is well formed and takes up
/// characters of the text.
pub proof fn lemma_first_token(s: Seq<char>)
    requires
        s.len() > 0,
    ensures
        first_token(s) matches Ok((found, n)) ==> 1 <= n <= s.len() && (found matches Some(token)
            ==> token_well_formed(token)),
{
    let c = s[0];
    lemma_run_in_class(s.skip(1), CharClass::Identifier);
    lemma_run_in_class(s.skip(1), CharClass::Number);
    lemma_run_in_class(s.skip(1), CharClass::Reference);
    lemma_run_in_class(s.skip(1), CharClass::Quoted);
    if is_identifier_start(c) {
        let n = 1 + run_len(s.skip(1), CharClass::Identifier);
        let text = s.take(n as int);
        assert forall|i: int| 0 <= i < text.len() implies in_class(
            CharClass::Identifier,
            #[trigger] text[i],
        ) by {
            if i > 0 {
                assert(text[i] == s.skip(1).take(n - 1)[i - 1]);
            }
        }
    } else if is_digit(c) {
        let n = 1 + run_len(s.skip(1), CharClass::Number);
        let text = s.take(n as int);
        assert forall|i: int| 0 <= i < text.len() implies in_class(
            CharClass::Number,
            #[trigger] text[i],
        ) by {
            if i > 0 {
                assert(text[i] == s.skip(1).take(n - 1)[i - 1]);
            }
        }
    } else if c == '@' {
        let n = run_len(s.skip(1), CharClass::Reference);
        assert(s.subrange(1, 1 + n as int) =~= s.skip(1).take(n as int));
    } else if c == '"' {
        let n = run_len(s.skip(1), CharClass::Quoted);
        assert(s.subrange(1, 1 + n as int) =~= s.skip(1).take(n as int));
    }
}

/// The tokens of a text are well formed.
pub proof fn lemma_lex_well_formed(s: Seq<char>)
    ensures
        lex(s) matches Ok(tokens) ==> tokens_well_formed(tokens),
    decreases s.len(),
{
    lemma_lex_unfold(s);
    if s.len() > 0 {
        lemma_first_token(s);
        if let Ok((found, n)) = first_token(s) {
            lemma_lex_well_formed(after(s, n));
            if let Ok(more) = lex(after(s, n)) {
                if let Some(token) = found {
                    assert forall|i: int| 0 <= i < (seq![token] + more).len()
                        implies token_well_formed(#[trigger] (seq![token] + more)[i]) by {
                        if i > 0 {
                            assert((seq![token] + more)[i] == more[i - 1]);
                        }
                    }
                }
            }
        }
    }
}

/// The identifier that starts at `chars[start]`, and where it ends.
pub fn get_identifier(chars: &Vec<char>, start: usize) -> (found: (String, usize))
    requires
        start < chars.len(),
    ensures
        found.1 - start == 1 + run_len(chars@.skip(start as int).skip(1), CharClass::Identifier),
        start < found.1 <= chars.len(),
        found.0@ == chars@.subrange(start as int, found.1 as int),
{
    assert(chars@.skip(start as int).skip(1) =~= chars@.skip(start + 1));
    let end = scan_run(chars, start + 1, CharClass::Identifier);
    (string_of(chars, start, end), end)
}

/// The number that starts at `chars[start]`, as it is spelled, and where it ends.
pub fn get_number(chars: &Vec<char>, start: usize) -> (found: (String, usize))
    requires
        start < chars.len(),
    ensures
        found.1 - start == 1 + run_len(chars@.skip(start as int).skip(1), CharClass::Number),
        start < found.1 <= chars.len(),
        found.0@ == chars@.subrange(start as int, found.1 as int),
{
    assert(chars@.skip(start as int).skip(1) =~= chars@.skip(start + 1));
    let end = scan_run(chars, start + 1, CharClass::Number);
    (string_of(chars, start, end), end)
}

/// The body of the reference whose `@` stands just before `chars[start]`, and where it ends.
pub fn get_reference(chars: &Vec<char>, start: usize) -> (found: (String, usize))
    requires
        start <= chars.len(),
    ensures
        found.1 - start == run_len(chars@.skip(start as int), CharClass::Reference),
        start <= found.1 <= chars.len(),
        found.0@ == chars@.subrange(start as int, found.1 as int),
{
    let end = scan_run(chars, start, CharClass::Reference);
    (string_of(chars, start, end), end)
}

/// The inside of the quoted string whose opening quote stands just before `chars[start]`, and
/// the position behind its closing quote (the end of the text if it has none).
pub fn get_quoted_string(chars: &Vec<char>, start: usize) -> (found: (String, usize))
    requires
        start <= chars.len(),
    ensures
        start <= found.1 <= chars.len(),
        found.0@ == chars@.subrange(
            start as int,
            start + run_len(chars@.skip(start as int), CharClass::Quoted),
        ),
        found.1 == start + run_len(chars@.skip(start as int), CharClass::Quoted) + if start
            + run_len(chars@.skip(start as int), CharClass::Quoted) < chars.len() {
            1int
        } else {
            0int
        },
{
    let end = scan_run(chars, start, CharClass::Quoted);
    let text = string_of(chars, start, end);
    if end < chars.len() {
        (text, end + 1)
    } else {
        (text, end)
    }
}

/// How many times `c` occurs in `s`.
pub fn count_occurrences(s: &Vec<char>, c: char) -> (n: usize)
    ensures
        n == count_char(s@, c),
{
    let mut n: usize = 0;
    let mut i: usize = 0;
    while i < s.len()
        invariant
            i <= s.len(),
            n <= i,
            n == count_char(s@.take(i as int), c),
        decreases s.len() - i,
    {
        assert(s@.take(i + 1).drop_last() =~= s@.take(i as int));
        if s[i] == c {
            n += 1;
        }
        i += 1;
    }
    assert(s@.take(s.len() as int) =~= s@);
    n
}

/// The token spelled by the single character `c`.
pub fn punctuation_item(c: char) -> (item: Option<LexItem>)
    ensures
        match item {
            Some(t) => punctuation(c) == Some(t@),
            None => punctuation(c) is None,
        },
{
    if c == '{' {
        Some(LexItem::OpenBracket)
    } else if c == '}' {
        Some(LexItem::CloseBracket)
    } else if c == '(' {
        Some(LexItem::OpenPar)
    } else if c == ')' {
        Some(LexItem::ClosePar)
    } else if c == ':' {
        Some(LexItem::Colon)
    } else if c == ',' {
        Some(LexItem::Comma)
    } else if c == '+' {
        Some(LexItem::Plus)
    } else if c == '-' {
        Some(LexItem::Minus)
    } else if c == '*' {
        Some(LexItem::Mul)
    } else if c == '/' {
        Some(LexItem::Div)
    } else if c == '#' {
        Some(LexItem::Hash)
    } else if c == '\n' {
        Some(LexItem::EOL)
    } else {
        None
    }
}

/// A lexer over one CDL source text.
pub struct Lexer {
    input: String,
}

impl View for Lexer {
    type V = Seq<char>;

    /// The text that the lexer reads.
    closed spec fn view(&self) -> Seq<char> {
        self.input@
    }
}

impl Lexer {
    /// A lexer over the text `input`.
    pub fn new(input: String) -> (lexer: Lexer)
        ensures
            lexer@ == input@,
    {
        Lexer { input }
    }

    /// Tokenises the text: the tokens in source order, or the message of the first lexical
    /// error.
    pub fn lex(&self) -> (res: Result<Vec<LexItem>, String>)
        ensures
            match lex(self@) {
                Ok(tokens) => res matches Ok(items) && tokens_of(items@) == tokens
                    && tokens_well_formed(tokens),
                Err(e) => res matches Err(message) && message@ == e.message(),
            },
    {
        let chars = to_chars(self.input.as_str());
        proof {
            lemma_lex_well_formed(chars@);
        }
        let mut result: Vec<LexItem> = Vec::new();
        let mut i: usize = 0;
        assert(chars@.skip(0) =~= chars@);
        assert(tokens_of(result@) =~= Seq::<Token>::empty());
        assert(followed_by(Seq::empty(), lex(chars@)) == lex(chars@)) by {
            if let Ok(more) = lex(chars@) {
                assert(Seq::<Token>::empty() + more =~= more);
            }
        }
        while i < chars.len()
            invariant
                i <= chars.len(),
                chars@ == self@,
                lex(chars@) == followed_by(tokens_of(result@), lex(chars@.skip(i as int))),
            decreases chars.len() - i,
        {
            let ghost here = chars@.skip(i as int);
            let ghost before = tokens_of(result@);
            proof {
                lemma_lex_unfold(here);
            }
            let (item, next) = match read_token(&chars, i) {
                Ok(read) => read,
                Err(message) => {
                    return Err(message);
                },
            };
            assert(after(here, (next - i) as nat) =~= chars@.skip(next as int));
            match item {
                Some(item) => {
                    result.push(item);
                    proof {
                        let token = item@;
                        assert(tokens_of(result@) =~= before.push(token));
                        if let Ok(more) = lex(chars@.skip(next as int)) {
                            assert(before + (seq![token] + more) =~= before.push(token) + more);
                        }
                    }
                },
                None => {},
            }
            i = next;
        }
        assert(chars@.skip(i as int) =~= Seq::<char>::empty());
        assert(tokens_of(result@) + Seq::<Token>::empty() =~= tokens_of(result@));
        proof {
            lemma_lex_unfold(chars@.skip(i as int));
        }
        Ok(result)
    }
}

/// The model of what [`read_token`] finds: a token, or a space.
pub open spec fn found_view(item: Option<LexItem>) -> Option<Token> {
    match item {
        Some(item) => Some(item@),
        None => None,
    }
}

/// Reads what stands at `chars[i]`: a token, or a space (`None`), and the position behind
/// it; or the message of the lexical error there.
pub fn read_token(chars: &Vec<char>, i: usize) -> (res: Result<(Option<LexItem>, usize), String>)
    requires
        i < chars.len(),
    ensures
        match first_token(chars@.skip(i as int)) {
            Ok((token, n)) => res matches Ok((item, next)) && found_view(item) == token && next
                == i + n && next <= chars.len(),
            Err(e) => res matches Err(message) && message@ == e.message(),
        },
{
    let c = chars[i];
    let ghost here = chars@.skip(i as int);
    assert(here.len() > 0 && here[0] == c);
    if char_is_identifier_start(c) {
        let (text, end) = get_identifier(chars, i);
        assert(here.take(end - i) =~= chars@.subrange(i as int, end as int));
        Ok((Some(LexItem::Identifier(text)), end))
    } else if char_is_digit(c) {
        let (text, end) = get_number(chars, i);
        assert(here.take(end - i) =~= chars@.subrange(i as int, end as int));
        let spelled = to_chars(text.as_str());
        if count_occurrences(&spelled, '.') > 1 {
            let mut message = String::from_str("Malformed number ");
            message.append(text.as_str());
            return Err(message);
        }
        Ok((Some(LexItem::Number { real_text: text }), end))
    } else if c == '@' {
        assert(here.skip(1) =~= chars@.skip(i + 1));
        let (text, end) = get_reference(chars, i + 1);
        assert(here.subrange(1, end - i) =~= chars@.subrange(i + 1, end as int));
        Ok((Some(LexItem::Reference(text)), end))
    } else if c == '"' {
        assert(here.skip(1) =~= chars@.skip(i + 1));
        let (text, end) = get_quoted_string(chars, i + 1);
        let ghost n = run_len(here.skip(1), CharClass::Quoted);
        assert(here.subrange(1, 1 + n as int) =~= chars@.subrange(i + 1, i + 1 + n));
        Ok((Some(LexItem::String(text)), end))
    } else if c == ' ' {
        Ok((None, i + 1))
    } else {
        match punctuation_item(c) {
            Some(item) => Ok((Some(item), i + 1)),
            None => {
                let mut message = String::from_str("Unknown character ");
                push_char(&mut message, c);
                Err(message)
            },
        }
    }
}

} // verus!
