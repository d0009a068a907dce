//! The lexer reads the printed text of a tree as the tree's canonical tokens.

use vstd::prelude::*;
use crate::ast::{SpecEntity, SpecExpr, SpecField, SpecHeader, SpecRoot};
use crate::canon::{
    each_entity_tokens, each_expr_tokens, each_field_tokens, entity_tokens, expr_tokens,
    field_tokens, header_tokens, operator_token, root_tokens,
};
use crate::lex::{
    followed_by, lemma_lex_unfold, lex, punctuation, token_well_formed, tokens_well_formed,
    LexError, Token,
};
use crate::print::{
    deeper, entity_text, entity_texts, expr_text, expr_texts, field_text, field_texts, header_text,
    root_text,
};
use crate::text::{
    after, all_in_class, concat, in_class, is_identifier, is_identifier_char, is_number, join,
    run_len, CharClass,
};

verus! {

/// Whether `c` ends every run of word characters: it continues no identifier, no number and
/// no reference.
pub open spec fn is_break(c: char) -> bool {
    !is_identifier_char(c) && c != '.'
}

/// Whether `rest` is empty or starts with a character that ends every word.
pub open spec fn breaks(rest: Seq<char>) -> bool {
    rest.len() == 0 || is_break(rest[0])
}

/// Whether `s` holds nothing but spaces.
pub open spec fn blank(s: Seq<char>) -> bool {
    forall|i: int| 0 <= i < s.len() ==> s[i] == ' '
}

/// A run ends where the class ends: before `rest`, if `v` lies within the class and `rest`
/// does not start in it.
pub proof fn lemma_run_exact(v: Seq<char>, rest: Seq<char>, class: CharClass)
    requires
        all_in_class(v, class),
        rest.len() == 0 || !in_class(class, rest[0]),
    ensures
        run_len(v + rest, class) == v.len(),
    decreases v.len(),
{
    if v.len() == 0 {
        assert(v + rest =~= rest);
    } else {
        assert((v + rest).skip(1) =~= v.skip(1) + rest);
        assert((v + rest)[0] == v[0]);
        assert forall|i: int| 0 <= i < v.skip(1).len() implies in_class(
            class,
            #[trigger] v.skip(1)[i],
        ) by {
            assert(v.skip(1)[i] == v[i + 1]);
        }
        lemma_run_exact(v.skip(1), rest, class);
    }
}

/// Tokens before tokens before a rest are all of them before the rest.
pub proof fn lemma_followed_twice(a: Seq<Token>, b: Seq<Token>, r: Result<Seq<Token>, LexError>)
    ensures
        followed_by(a, followed_by(b, r)) == followed_by(a + b, r),
{
    if let Ok(more) = r {
        assert(a + (b + more) =~= (a + b) + more);
    }
}

/// No tokens before a rest are the rest.
pub proof fn lemma_followed_by_nothing(r: Result<Seq<Token>, LexError>)
    ensures
        followed_by(Seq::empty(), r) == r,
{
    if let Ok(more) = r {
        assert(Seq::<Token>::empty() + more =~= more);
    }
}

/// An identifier before a break is read as one identifier.
pub proof fn lemma_lex_identifier(v: Seq<char>, rest: Seq<char>)
    requires
        is_identifier(v),
        breaks(rest),
    ensures
        lex(v + rest) == followed_by(seq![Token::Identifier(v)], lex(rest)),
{
    let s = v + rest;
    lemma_lex_unfold(s);
    assert(s[0] == v[0]);
    assert(s.skip(1) =~= v.skip(1) + rest);
    assert forall|i: int| 0 <= i < v.skip(1).len() implies in_class(
        CharClass::Identifier,
        #[trigger] v.skip(1)[i],
    ) by {
        assert(v.skip(1)[i] == v[i + 1]);
    }
    lemma_run_exact(v.skip(1), rest, CharClass::Identifier);
    assert(s.take(v.len() as int) =~= v);
    assert(after(s, v.len()) =~= rest);
}

/// A number before a break is read as one number.
pub proof fn lemma_lex_number(v: Seq<char>, rest: Seq<char>)
    requires
        is_number(v),
        breaks(rest),
    ensures
        lex(v + rest) == followed_by(seq![Token::Number(v)], lex(rest)),
{
    let s = v + rest;
    lemma_lex_unfold(s);
    assert(s[0] == v[0]);
    assert(s.skip(1) =~= v.skip(1) + rest);
    assert forall|i: int| 0 <= i < v.skip(1).len() implies in_class(
        CharClass::Number,
        #[trigger] v.skip(1)[i],
    ) by {
        assert(v.skip(1)[i] == v[i + 1]);
    }
    lemma_run_exact(v.skip(1), rest, CharClass::Number);
    assert(s.take(v.len() as int) =~= v);
    assert(after(s, v.len()) =~= rest);
}

/// `@` and reference characters before a break are read as one reference.
pub proof fn lemma_lex_reference(v: Seq<char>, rest: Seq<char>)
    requires
        all_in_class(v, CharClass::Reference),
        breaks(rest),
    ensures
        lex(seq!['@'] + v + rest) == followed_by(seq![Token::Reference(v)], lex(rest)),
{
    let s = seq!['@'] + v + rest;
    lemma_lex_unfold(s);
    assert(s[0] == '@');
    assert(s.skip(1) =~= v + rest);
    lemma_run_exact(v, rest, CharClass::Reference);
    assert(s.subrange(1, 1 + v.len() as int) =~= v);
    assert(after(s, 1 + v.len()) =~= rest);
}

/// A text without quotes between two quotes is read as one string.
pub proof fn lemma_lex_string(v: Seq<char>, rest: Seq<char>)
    requires
        all_in_class(v, CharClass::Quoted),
    ensures
        lex(seq!['"'] + v + seq!['"'] + rest) == followed_by(seq![Token::String(v)], lex(rest)),
{
    let s = seq!['"'] + v + seq!['"'] + rest;
    lemma_lex_unfold(s);
    assert(s[0] == '"');
    assert(s.skip(1) =~= v + (seq!['"'] + rest));
    lemma_run_exact(v, seq!['"'] + rest, CharClass::Quoted);
    assert(s.subrange(1, 1 + v.len() as int) =~= v);
    assert(after(s, v.len() + 2) =~= rest);
}

/// A character that spells a token by itself is read as that token.
pub proof fn lemma_lex_punctuation(c: char, rest: Seq<char>)
    requires
        punctuation(c) is Some,
    ensures
        lex(seq![c] + rest) == followed_by(seq![punctuation(c)->Some_0], lex(rest)),
{
    let s = seq![c] + rest;
    lemma_lex_unfold(s);
    assert(s[0] == c);
    assert(after(s, 1) =~= rest);
}

/// A space is skipped.
pub proof fn lemma_lex_space(rest: Seq<char>)
    ensures
        lex(seq![' '] + rest) == lex(rest),
{
    let s = seq![' '] + rest;
    lemma_lex_unfold(s);
    assert(s[0] == ' ');
    assert(after(s, 1) =~= rest);
}

/// Spaces are skipped.
pub proof fn lemma_lex_blank(indent: Seq<char>, rest: Seq<char>)
    requires
        blank(indent),
    ensures
        lex(indent + rest) == lex(rest),
    decreases indent.len(),
{
    if indent.len() == 0 {
        assert(indent + rest =~= rest);
    } else {
        assert(indent + rest =~= seq![' '] + (indent.skip(1) + rest));
        lemma_lex_space(indent.skip(1) + rest);
        lemma_lex_blank(indent.skip(1), rest);
    }
}

/// The printed text of a well-formed expression, before a break, is read as the tokens of
/// the expression.
pub proof fn lemma_lex_expr(e: SpecExpr, rest: Seq<char>)
    requires
        e.well_formed(),
        breaks(rest),
    ensures
        lex(expr_text(e) + rest) == followed_by(expr_tokens(e), lex(rest)),
    decreases e, 0nat,
{
    match e {
        SpecExpr::String(value) => {
            assert(expr_text(e) + rest =~= seq!['"'] + value + seq!['"'] + rest);
            lemma_lex_string(value, rest);
        },
        SpecExpr::Identifier(value) => {
            lemma_lex_identifier(value, rest);
        },
        SpecExpr::Number(text) => {
            lemma_lex_number(text, rest);
        },
        SpecExpr::Function { name, args } => {
            let inside = join(expr_texts(args), seq![',', ' ']);
            let close = seq![')'] + rest;
            assert(expr_text(e) + rest =~= name + (seq!['('] + (inside + close)));
            lemma_lex_identifier(name, seq!['('] + (inside + close));
            lemma_lex_punctuation('(', inside + close);
            assert(expr_texts(args).take(args.len() as int) =~= expr_texts(args));
            assert(each_expr_tokens(args).take(args.len() as int) =~= each_expr_tokens(args));
            lemma_lex_args(args, args.len(), close);
            lemma_lex_punctuation(')', rest);
            let middle = join(each_expr_tokens(args), seq![Token::Comma]);
            lemma_followed_twice(middle, seq![Token::ClosePar], lex(rest));
            lemma_followed_twice(seq![Token::OpenPar], middle + seq![Token::ClosePar], lex(rest));
            lemma_followed_twice(
                seq![Token::Identifier(name)],
                seq![Token::OpenPar] + (middle + seq![Token::ClosePar]),
                lex(rest),
            );
            assert(expr_tokens(e) =~= seq![Token::Identifier(name)] + (seq![Token::OpenPar] + (
            middle + seq![Token::ClosePar])));
        },
        SpecExpr::VPath(path) => {
            let table = path.table->Some_0;
            let field = path.field->Some_0;
            assert(expr_text(e) + rest =~= table + (seq![':'] + (field + rest)));
            lemma_lex_identifier(table, seq![':'] + (field + rest));
            lemma_lex_punctuation(':', field + rest);
            lemma_lex_identifier(field, rest);
            lemma_followed_twice(seq![Token::Colon], seq![Token::Identifier(field)], lex(rest));
            lemma_followed_twice(
                seq![Token::Identifier(table)],
                seq![Token::Colon] + seq![Token::Identifier(field)],
                lex(rest),
            );
            assert(expr_tokens(e) =~= seq![Token::Identifier(table)] + (seq![Token::Colon]
                + seq![Token::Identifier(field)]));
        },
        SpecExpr::Operator { operator, left, right } => {
            let tail = expr_text(*right) + rest;
            assert(expr_text(e) + rest =~= expr_text(*left) + (seq![' '] + (seq![operator] + (
            seq![' '] + tail))));
            lemma_lex_expr(*left, seq![' '] + (seq![operator] + (seq![' '] + tail)));
            lemma_lex_space(seq![operator] + (seq![' '] + tail));
            lemma_lex_punctuation(operator, seq![' '] + tail);
            lemma_lex_space(tail);
            lemma_lex_expr(*right, rest);
            lemma_followed_twice(seq![operator_token(operator)], expr_tokens(*right), lex(rest));
            lemma_followed_twice(
                expr_tokens(*left),
                seq![operator_token(operator)] + expr_tokens(*right),
                lex(rest),
            );
            assert(expr_tokens(e) =~= expr_tokens(*left) + (seq![operator_token(operator)]
                + expr_tokens(*right)));
        },
        SpecExpr::UnaryOperator { operator, operand } => {
            assert(expr_text(e) + rest =~= seq!['-'] + (expr_text(*operand) + rest));
            lemma_lex_punctuation('-', expr_text(*operand) + rest);
            lemma_lex_expr(*operand, rest);
            lemma_followed_twice(seq![Token::Minus], expr_tokens(*operand), lex(rest));
        },
    }
}

/// The printed texts of the first `n` of the well-formed expressions `args`, with `", "`
/// between them and before a break, are read as their tokens with commas between them.
pub proof fn lemma_lex_args(args: Seq<SpecExpr>, n: nat, rest: Seq<char>)
    requires
        n <= args.len(),
        forall|i: int| 0 <= i < args.len() ==> (#[trigger] args[i]).well_formed(),
        breaks(rest),
    ensures
        lex(join(expr_texts(args).take(n as int), seq![',', ' ']) + rest) == followed_by(
            join(each_expr_tokens(args).take(n as int), seq![Token::Comma]),
            lex(rest),
        ),
    decreases args, n,
{
    let texts = expr_texts(args).take(n as int);
    let tokens = each_expr_tokens(args).take(n as int);
    if n == 0 {
        assert(join(texts, seq![',', ' ']) + rest =~= rest);
        lemma_followed_by_nothing(lex(rest));
    } else if n == 1 {
        lemma_lex_expr(args[0], rest);
    } else {
        let last = args[n - 1];
        let tail = expr_text(last) + rest;
        assert(texts.drop_last() =~= expr_texts(args).take(n - 1));
        assert(tokens.drop_last() =~= each_expr_tokens(args).take(n - 1));
        let before = join(expr_texts(args).take(n - 1), seq![',', ' ']);
        let before_tokens = join(each_expr_tokens(args).take(n - 1), seq![Token::Comma]);
        assert(join(texts, seq![',', ' ']) + rest =~= before + (seq![','] + (seq![' '] + tail)));
        lemma_lex_args(args, (n - 1) as nat, seq![','] + (seq![' '] + tail));
        lemma_lex_punctuation(',', seq![' '] + tail);
        lemma_lex_space(tail);
        lemma_lex_expr(last, rest);
        lemma_followed_twice(seq![Token::Comma], expr_tokens(last), lex(rest));
        lemma_followed_twice(before_tokens, seq![Token::Comma] + expr_tokens(last), lex(rest));
        assert(join(tokens, seq![Token::Comma]) =~= before_tokens + (seq![Token::Comma]
            + expr_tokens(last)));
    }
}

/// An identifier and a space are read as one identifier.
pub proof fn lemma_lex_word(v: Seq<char>, rest: Seq<char>)
    requires
        is_identifier(v),
    ensures
        lex(v + seq![' '] + rest) == followed_by(seq![Token::Identifier(v)], lex(rest)),
{
    assert(v + seq![' '] + rest =~= v + (seq![' '] + rest));
    lemma_lex_identifier(v, seq![' '] + rest);
    lemma_lex_space(rest);
}

/// The printed text of a well-formed header is read as the tokens of the header.
pub proof fn lemma_lex_header(header: SpecHeader, rest: Seq<char>)
    requires
        header.well_formed(),
    ensures
        lex(header_text(header) + rest) == followed_by(header_tokens(header), lex(rest)),
{
    let sub_text = match header.sub_type {
        Some(sub_type) => sub_type + seq![' '],
        None => Seq::empty(),
    };
    let id_text = match header.identifier {
        Some(identifier) => seq!['#'] + identifier + seq![' '],
        None => Seq::empty(),
    };
    let ref_text = match header.reference {
        Some(reference) => seq!['@'] + reference + seq![' '],
        None => Seq::empty(),
    };
    let sub_tokens = match header.sub_type {
        Some(sub_type) => seq![Token::Identifier(sub_type)],
        None => Seq::empty(),
    };
    let id_tokens = match header.identifier {
        Some(identifier) => seq![Token::Hash, Token::Identifier(identifier)],
        None => Seq::empty(),
    };
    let ref_tokens = match header.reference {
        Some(reference) => seq![Token::Reference(reference)],
        None => Seq::empty(),
    };
    // the reference
    assert(lex(ref_text + rest) == followed_by(ref_tokens, lex(rest))) by {
        match header.reference {
            Some(reference) => {
                assert(ref_text + rest =~= seq!['@'] + reference + (seq![' '] + rest));
                lemma_lex_reference(reference, seq![' '] + rest);
                lemma_lex_space(rest);
            },
            None => {
                assert(ref_text + rest =~= rest);
                lemma_followed_by_nothing(lex(rest));
            },
        }
    }
    // the identifier
    let after_id = ref_text + rest;
    assert(lex(id_text + after_id) == followed_by(id_tokens, lex(after_id))) by {
        match header.identifier {
            Some(identifier) => {
                assert(id_text + after_id =~= seq!['#'] + (identifier + seq![' '] + after_id));
                lemma_lex_punctuation('#', identifier + seq![' '] + after_id);
                lemma_lex_word(identifier, after_id);
                lemma_followed_twice(
                    seq![Token::Hash],
                    seq![Token::Identifier(identifier)],
                    lex(after_id),
                );
                assert(id_tokens =~= seq![Token::Hash] + seq![Token::Identifier(identifier)]);
            },
            None => {
                assert(id_text + after_id =~= after_id);
                lemma_followed_by_nothing(lex(after_id));
            },
        }
    }
    // the sub type
    let after_sub = id_text + after_id;
    assert(lex(sub_text + after_sub) == followed_by(sub_tokens, lex(after_sub))) by {
        match header.sub_type {
            Some(sub_type) => {
                lemma_lex_word(sub_type, after_sub);
            },
            None => {
                assert(sub_text + after_sub =~= after_sub);
                lemma_followed_by_nothing(lex(after_sub));
            },
        }
    }
    // the main type
    let after_main = sub_text + after_sub;
    lemma_lex_word(header.main_type, after_main);
    assert(header_text(header) + rest =~= header.main_type + seq![' '] + after_main);
    lemma_followed_twice(id_tokens, ref_tokens, lex(rest));
    lemma_followed_twice(sub_tokens, id_tokens + ref_tokens, lex(rest));
    lemma_followed_twice(
        seq![Token::Identifier(header.main_type)],
        sub_tokens + (id_tokens + ref_tokens),
        lex(rest),
    );
    assert(header_tokens(header) =~= seq![Token::Identifier(header.main_type)] + (sub_tokens + (
    id_tokens + ref_tokens)));
}

/// The printed line of a well-formed field is read as the tokens of the field.
pub proof fn lemma_lex_field(field: SpecField, indent: Seq<char>, rest: Seq<char>)
    requires
        field.well_formed(),
        blank(indent),
    ensures
        lex(field_text(field, indent) + rest) == followed_by(field_tokens(field), lex(rest)),
{
    let value = expr_text(field.value);
    let end = seq!['\n'] + rest;
    assert(field_text(field, indent) + rest =~= indent + (field.identifier + (seq![':'] + (
    seq![' '] + (value + end)))));
    lemma_lex_blank(indent, field.identifier + (seq![':'] + (seq![' '] + (value + end))));
    lemma_lex_identifier(field.identifier, seq![':'] + (seq![' '] + (value + end)));
    lemma_lex_punctuation(':', seq![' '] + (value + end));
    lemma_lex_space(value + end);
    lemma_lex_expr(field.value, end);
    lemma_lex_punctuation('\n', rest);
    let value_tokens = expr_tokens(field.value);
    lemma_followed_twice(value_tokens, seq![Token::EOL], lex(rest));
    lemma_followed_twice(seq![Token::Colon], value_tokens + seq![Token::EOL], lex(rest));
    lemma_followed_twice(
        seq![Token::Identifier(field.identifier)],
        seq![Token::Colon] + (value_tokens + seq![Token::EOL]),
        lex(rest),
    );
    assert(field_tokens(field) =~= seq![Token::Identifier(field.identifier)] + (seq![
        Token::Colon,
    ] + (value_tokens + seq![Token::EOL])));
}

/// The printed lines of the first `n` of the well-formed fields `fields` are read as their
/// tokens.
pub proof fn lemma_lex_fields(fields: Seq<SpecField>, n: nat, indent: Seq<char>, rest: Seq<char>)
    requires
        n <= fields.len(),
        forall|i: int| 0 <= i < fields.len() ==> (#[trigger] fields[i]).well_formed(),
        blank(indent),
    ensures
        lex(concat(field_texts(fields, indent).take(n as int)) + rest) == followed_by(
            concat(each_field_tokens(fields).take(n as int)),
            lex(rest),
        ),
    decreases n,
{
    let texts = field_texts(fields, indent).take(n as int);
    let tokens = each_field_tokens(fields).take(n as int);
    if n == 0 {
        assert(concat(texts) + rest =~= rest);
        lemma_followed_by_nothing(lex(rest));
    } else {
        let last = fields[n - 1];
        assert(texts.drop_last() =~= field_texts(fields, indent).take(n - 1));
        assert(tokens.drop_last() =~= each_field_tokens(fields).take(n - 1));
        let before = concat(field_texts(fields, indent).take(n - 1));
        let before_tokens = concat(each_field_tokens(fields).take(n - 1));
        assert(concat(texts) + rest =~= before + (field_text(last, indent) + rest));
        lemma_lex_fields(fields, (n - 1) as nat, indent, field_text(last, indent) + rest);
        lemma_lex_field(last, indent, rest);
        lemma_followed_twice(before_tokens, field_tokens(last), lex(rest));
    }
}

/// Putting sequences one after the other does not depend on where one starts.
pub proof fn lemma_assoc<T>(x: Seq<T>, y: Seq<T>, z: Seq<T>)
    ensures
        (x + y) + z == x + (y + z),
{
    assert((x + y) + z =~= x + (y + z));
}

/// The printed lines of a well-formed entity are read as the tokens of the entity.
pub proof fn lemma_lex_entity(e: SpecEntity, indent: Seq<char>, rest: Seq<char>)
    requires
        e.well_formed(),
        blank(indent),
    ensures
        lex(entity_text(e, indent) + rest) == followed_by(entity_tokens(e), lex(rest)),
    decreases e, 0nat,
{
    let inner = deeper(indent);
    assert(blank(inner));
    let head = header_text(e.header);
    let open = seq!['{', '\n'];
    let fields = concat(field_texts(e.body.fields, inner));
    let children = concat(entity_texts(e.body.children, inner));
    let close = seq!['}', '\n'];
    let r6 = close + rest;
    let r5 = indent + r6;
    let r4 = children + r5;
    let r3 = fields + r4;
    let r2 = open + r3;
    let r1 = head + r2;
    assert(entity_text(e, indent) + rest == indent + r1) by {
        lemma_assoc(indent + head + open + fields + children + indent, close, rest);
        lemma_assoc(indent + head + open + fields + children, indent, r6);
        lemma_assoc(indent + head + open + fields, children, r5);
        lemma_assoc(indent + head + open, fields, r4);
        lemma_assoc(indent + head, open, r3);
        lemma_assoc(indent, head, r2);
    }
    lemma_lex_blank(indent, r1);
    lemma_lex_header(e.header, r2);
    assert(r2 =~= seq!['{'] + (seq!['\n'] + r3));
    lemma_lex_punctuation('{', seq!['\n'] + r3);
    lemma_lex_punctuation('\n', r3);
    assert(field_texts(e.body.fields, inner).take(e.body.fields.len() as int) =~= field_texts(
        e.body.fields,
        inner,
    ));
    assert(each_field_tokens(e.body.fields).take(e.body.fields.len() as int)
        =~= each_field_tokens(e.body.fields));
    lemma_lex_fields(e.body.fields, e.body.fields.len(), inner, r4);
    assert(entity_texts(e.body.children, inner).take(e.body.children.len() as int)
        =~= entity_texts(e.body.children, inner));
    assert(each_entity_tokens(e.body.children).take(e.body.children.len() as int)
        =~= each_entity_tokens(e.body.children));
    lemma_lex_entities(e.body.children, e.body.children.len(), inner, r5);
    lemma_lex_blank(indent, r6);
    assert(r6 =~= seq!['}'] + (seq!['\n'] + rest));
    lemma_lex_punctuation('}', seq!['\n'] + rest);
    lemma_lex_punctuation('\n', rest);
    let t1 = header_tokens(e.header);
    let t2 = seq![Token::OpenBracket, Token::EOL];
    let t3 = concat(each_field_tokens(e.body.fields));
    let t4 = concat(each_entity_tokens(e.body.children));
    let t5 = seq![Token::CloseBracket, Token::EOL];
    assert(t5 =~= seq![Token::CloseBracket] + seq![Token::EOL]);
    assert(t2 =~= seq![Token::OpenBracket] + seq![Token::EOL]);
    let end = lex(rest);
    lemma_followed_twice(seq![Token::CloseBracket], seq![Token::EOL], end);
    assert(lex(r6) == followed_by(t5, end));
    assert(lex(r4) == followed_by(t4, followed_by(t5, end)));
    assert(lex(r3) == followed_by(t3, followed_by(t4, followed_by(t5, end))));
    lemma_followed_twice(
        seq![Token::OpenBracket],
        seq![Token::EOL],
        followed_by(t3, followed_by(t4, followed_by(t5, end))),
    );
    assert(lex(r2) == followed_by(t2, followed_by(t3, followed_by(t4, followed_by(t5, end)))));
    lemma_followed_twice(t4, t5, end);
    lemma_followed_twice(t3, t4 + t5, end);
    lemma_followed_twice(t2, t3 + (t4 + t5), end);
    lemma_followed_twice(t1, t2 + (t3 + (t4 + t5)), end);
    assert(entity_tokens(e) == t1 + (t2 + (t3 + (t4 + t5)))) by {
        lemma_assoc(t1 + t2 + t3, t4, t5);
        lemma_assoc(t1 + t2, t3, t4 + t5);
        lemma_assoc(t1, t2, t3 + (t4 + t5));
    }
}

/// The printed lines of the first `n` of the well-formed entities `entities` are read as
/// their tokens.
pub proof fn lemma_lex_entities(
    entities: Seq<SpecEntity>,
    n: nat,
    indent: Seq<char>,
    rest: Seq<char>,
)
    requires
        n <= entities.len(),
        forall|i: int| 0 <= i < entities.len() ==> (#[trigger] entities[i]).well_formed(),
        blank(indent),
    ensures
        lex(concat(entity_texts(entities, indent).take(n as int)) + rest) == followed_by(
            concat(each_entity_tokens(entities).take(n as int)),
            lex(rest),
        ),
    decreases entities, n,
{
    let texts = entity_texts(entities, indent).take(n as int);
    let tokens = each_entity_tokens(entities).take(n as int);
    if n == 0 {
        assert(concat(texts) + rest =~= rest);
        lemma_followed_by_nothing(lex(rest));
    } else {
        let last = entities[n - 1];
        assert(texts.drop_last() =~= entity_texts(entities, indent).take(n - 1));
        assert(tokens.drop_last() =~= each_entity_tokens(entities).take(n - 1));
        let before = concat(entity_texts(entities, indent).take(n - 1));
        let before_tokens = concat(each_entity_tokens(entities).take(n - 1));
        assert(concat(texts) + rest =~= before + (entity_text(last, indent) + rest));
        lemma_lex_entities(entities, (n - 1) as nat, indent, entity_text(last, indent) + rest);
        lemma_lex_entity(last, indent, rest);
        lemma_followed_twice(before_tokens, entity_tokens(last), lex(rest));
    }
}

/// The printed text of a well-formed document has a tokenisation: the canonical tokens of
/// the document. Every character that the printer writes belongs to a token of the
/// language or is a space.
pub proof fn lemma_printed_text_lexes(root: SpecRoot)
    requires
        root.well_formed(),
    ensures
        lex(root_text(root)) == Ok::<Seq<Token>, LexError>(root_tokens(root)),
{
    let none = Seq::<char>::empty();
    let texts = entity_texts(root.children, none);
    let tokens = each_entity_tokens(root.children);
    assert(texts.take(root.children.len() as int) =~= texts);
    assert(tokens.take(root.children.len() as int) =~= tokens);
    lemma_lex_entities(root.children, root.children.len(), none, none);
    lemma_lex_unfold(none);
    assert(concat(texts) + none =~= concat(texts));
    assert(root_tokens(root) + Seq::<Token>::empty() =~= root_tokens(root));
}

/// How the token `token` is spelled in a text.
pub open spec fn spelling(token: Token) -> Seq<char> {
    match token {
        Token::Identifier(text) => text,
        Token::Number(text) => text,
        Token::String(text) => seq!['"'] + text + seq!['"'],
        Token::Reference(text) => seq!['@'] + text,
        Token::Colon => seq![':'],
        Token::Comma => seq![','],
        Token::OpenBracket => seq!['{'],
        Token::CloseBracket => seq!['}'],
        Token::OpenPar => seq!['('],
        Token::ClosePar => seq![')'],
        Token::Plus => seq!['+'],
        Token::Minus => seq!['-'],
        Token::Div => seq!['/'],
        Token::Mul => seq!['*'],
        Token::Hash => seq!['#'],
        Token::EOL => seq!['\n'],
    }
}

/// The spellings of the tokens `tokens`, with a space behind each.
pub open spec fn spelled(tokens: Seq<Token>) -> Seq<char>
    decreases tokens.len(),
{
    if tokens.len() == 0 {
        Seq::empty()
    } else {
        spelling(tokens[0]) + seq![' '] + spelled(tokens.skip(1))
    }
}

/// Every sequence of well-formed tokens is the tokenisation of a text: of the spellings of
/// the tokens with a space behind each.
pub proof fn lemma_spelled_tokens_lex(tokens: Seq<Token>)
    requires
        tokens_well_formed(tokens),
    ensures
        lex(spelled(tokens)) == Ok::<Seq<Token>, LexError>(tokens),
    decreases tokens.len(),
{
    if tokens.len() == 0 {
        lemma_lex_unfold(Seq::<char>::empty());
        assert(tokens =~= Seq::<Token>::empty());
    } else {
        let first = tokens[0];
        let others = tokens.skip(1);
        let behind = seq![' '] + spelled(others);
        assert(token_well_formed(first));
        assert forall|i: int| 0 <= i < others.len() implies token_well_formed(
            #[trigger] others[i],
        ) by {
            assert(others[i] == tokens[i + 1]);
        }
        lemma_spelled_tokens_lex(others);
        lemma_lex_space(spelled(others));
        lemma_assoc(spelling(first), seq![' '], spelled(others));
        assert(behind[0] == ' ');
        assert(spelled(tokens) == spelling(first) + behind);
        assert(lex(behind) == Ok::<Seq<Token>, LexError>(others));
        assert(seq![first] + others =~= tokens);
        match first {
            Token::Identifier(text) => {
                lemma_lex_identifier(text, behind);
            },
            Token::Number(text) => {
                lemma_lex_number(text, behind);
            },
            Token::String(text) => {
                lemma_lex_string(text, behind);
            },
            Token::Reference(text) => {
                lemma_lex_reference(text, behind);
            },
            _ => {
                let c = spelling(first)[0];
                assert(spelling(first) =~= seq![c]);
                assert(punctuation(c) == Some(first));
                lemma_lex_punctuation(c, behind);
            },
        }
    }
}

} // verus!
