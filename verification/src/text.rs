//! Character classes and the string primitives the lexers and the printer share.

use vstd::prelude::*;
use vstd::std_specs::iter::IteratorSpec;
use vstd::string::StringExecFns;

verus! {

broadcast use vstd::string::group_string_axioms;

/// The runs of characters that the lexers collect into one token.
#[derive(Clone, Copy, Debug)]
pub enum CharClass {
    /// `[A-Za-z0-9_]`: what may follow the first character of an identifier.
    Identifier,
    /// `[0-9.]`: what may follow the first digit of a number.
    Number,
    /// `[A-Za-z0-9_.]`: the body of a reference.
    Reference,
    /// Anything but `"`: the inside of a quoted string.
    Quoted,
}

/// `[A-Za-z]`.
pub open spec fn is_letter(c: char) -> bool {
    ('a' <= c && c <= 'z') || ('A' <= c && c <= 'Z')
}

/// `[0-9]`.
pub open spec fn is_digit(c: char) -> bool {
    '0' <= c && c <= '9'
}

/// `[A-Za-z_]`: the characters that start an identifier.
pub open spec fn is_identifier_start(c: char) -> bool {
    is_letter(c) || c == '_'
}

/// `[A-Za-z0-9_]`: the characters that continue an identifier.
pub open spec fn is_identifier_char(c: char) -> bool {
    is_letter(c) || is_digit(c) || c == '_'
}

/// Whether `c` belongs to the class `class`.
pub open spec fn in_class(class: CharClass, c: char) -> bool {
    match class {
        CharClass::Identifier => is_identifier_char(c),
        CharClass::Number => is_digit(c) || c == '.',
        CharClass::Reference => is_identifier_char(c) || c == '.',
        CharClass::Quoted => c != '"',
    }
}

/// The length of the longest prefix of `s` whose characters all belong to `class`.
pub open spec fn run_len(s: Seq<char>, class: CharClass) -> nat
    decreases s.len(),
{
    if s.len() > 0 && in_class(class, s[0]) {
        1 + run_len(s.skip(1), class)
    } else {
        0
    }
}

/// Whether every character of `s` belongs to `class`.
pub open spec fn all_in_class(s: Seq<char>, class: CharClass) -> bool {
    forall|i: int| 0 <= i < s.len() ==> in_class(class, #[trigger] s[i])
}

/// `[A-Za-z_][A-Za-z0-9_]*`.
pub open spec fn is_identifier(s: Seq<char>) -> bool {
    s.len() > 0 && is_identifier_start(s[0]) && all_in_class(s, CharClass::Identifier)
}

/// How many times `c` occurs in `s`.
pub open spec fn count_char(s: Seq<char>, c: char) -> nat
    decreases s.len(),
{
    if s.len() == 0 {
        0
    } else {
        count_char(s.drop_last(), c) + if s.last() == c {
            1nat
        } else {
            0nat
        }
    }
}

/// A decimal literal: a digit, then digits with at most one `.` among them.
pub open spec fn is_number(s: Seq<char>) -> bool {
    s.len() > 0 && is_digit(s[0]) && all_in_class(s, CharClass::Number) && count_char(s, '.') <= 1
}

/// What is left of `s` after its first `n` items; nothing when `s` is shorter than that.
pub open spec fn after<T>(s: Seq<T>, n: nat) -> Seq<T> {
    if n <= s.len() {
        s.skip(n as int)
    } else {
        Seq::empty()
    }
}

/// The sequences `parts` one after the other.
pub open spec fn concat<T>(parts: Seq<Seq<T>>) -> Seq<T>
    decreases parts.len(),
{
    if parts.len() == 0 {
        Seq::empty()
    } else {
        concat(parts.drop_last()) + parts.last()
    }
}

/// The sequences `parts` one after the other, with `separator` between each two of them.
pub open spec fn join<T>(parts: Seq<Seq<T>>, separator: Seq<T>) -> Seq<T>
    decreases parts.len(),
{
    if parts.len() == 0 {
        Seq::empty()
    } else if parts.len() == 1 {
        parts[0]
    } else {
        join(parts.drop_last(), separator) + separator + parts.last()
    }
}

/// Whether `c` is a letter of `[A-Za-z]`.
pub fn char_is_letter(c: char) -> (b: bool)
    ensures
        b == is_letter(c),
{
    ('a' <= c && c <= 'z') || ('A' <= c && c <= 'Z')
}

/// Whether `c` is a digit of `[0-9]`.
pub fn char_is_digit(c: char) -> (b: bool)
    ensures
        b == is_digit(c),
{
    '0' <= c && c <= '9'
}

/// Whether `c` may start an identifier.
pub fn char_is_identifier_start(c: char) -> (b: bool)
    ensures
        b == is_identifier_start(c),
{
    char_is_letter(c) || c == '_'
}

/// Whether `c` belongs to the class `class`.
pub fn char_in_class(class: CharClass, c: char) -> (b: bool)
    ensures
        b == in_class(class, c),
{
    match class {
        CharClass::Identifier => char_is_letter(c) || char_is_digit(c) || c == '_',
        CharClass::Number => char_is_digit(c) || c == '.',
        CharClass::Reference => char_is_letter(c) || char_is_digit(c) || c == '_' || c == '.',
        CharClass::Quoted => c != '"',
    }
}

/// A run lies within its text and within its class.
pub proof fn lemma_run_in_class(s: Seq<char>, class: CharClass)
    ensures
        run_len(s, class) <= s.len(),
        all_in_class(s.take(run_len(s, class) as int), class),
    decreases s.len(),
{
    if s.len() > 0 && in_class(class, s[0]) {
        lemma_run_in_class(s.skip(1), class);
        let n = run_len(s, class);
        assert forall|i: int| 0 <= i < n implies in_class(
            class,
            #[trigger] s.take(n as int)[i],
        ) by {
            if i > 0 {
                assert(s.take(n as int)[i] == s.skip(1).take(n - 1)[i - 1]);
            }
        }
    }
}

/// `String::push` of std: the string grows by exactly the character `c`, at its end.
#[verifier::external_body]
pub(crate) fn push_char(s: &mut String, c: char)
    ensures
        final(s)@ == old(s)@.push(c),
{
    s.push(c)
}

/// The characters of `s`, in order.
pub fn to_chars(s: &str) -> (v: Vec<char>)
    ensures
        v@ == s@,
{
    let mut it = s.chars();
    let mut v: Vec<char> = Vec::new();
    loop
        invariant
            v@ + it.remaining() == s@,
        decreases s@.len() - v@.len(),
    {
        match it.next() {
            Some(c) => {
                v.push(c);
            },
            None => {
                assert(v@ =~= s@);
                return v;
            },
        }
    }
}

/// The string made of `chars[from..to]`.
pub fn string_of(chars: &Vec<char>, from: usize, to: usize) -> (s: String)
    requires
        from <= to <= chars.len(),
    ensures
        s@ == chars@.subrange(from as int, to as int),
{
    let mut s = String::new();
    let mut i: usize = from;
    while i < to
        invariant
            from <= i <= to <= chars.len(),
            s@ == chars@.subrange(from as int, i as int),
        decreases to - i,
    {
        push_char(&mut s, chars[i]);
        i += 1;
        assert(s@ =~= chars@.subrange(from as int, i as int));
    }
    s
}

/// The end of the longest run of `class` characters that starts at `start`.
pub fn scan_run(chars: &Vec<char>, start: usize, class: CharClass) -> (end: usize)
    requires
        start <= chars.len(),
    ensures
        start <= end <= chars.len(),
        end - start == run_len(chars@.skip(start as int), class),
{
    let mut i: usize = start;
    while i < chars.len() && char_in_class(class, chars[i])
        invariant
            start <= i <= chars.len(),
            run_len(chars@.skip(start as int), class) == (i - start) + run_len(
                chars@.skip(i as int),
                class,
            ),
        decreases chars.len() - i,
    {
        assert(chars@.skip(i as int).skip(1) =~= chars@.skip(i + 1));
        i += 1;
    }
    i
}

/// Appends `piece` to `s`.
pub fn push_text(s: &mut String, piece: &str)
    ensures
        final(s)@ == old(s)@ + piece@,
{
    s.append(piece);
}

} // verus!
