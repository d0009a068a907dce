//! The parser reads the canonical tokens of an expression as an expression with the same
//! printed text.
//!
//! Without its parentheses an expression is a row of pieces: atoms (literals, names, paths
//! and calls) with signs before them and operators between them. The parser groups such a
//! row by its own rules, whatever tree the row came from, and the text of a tree is the
//! text of its row.

use vstd::prelude::*;
use crate::ast::SpecExpr;
use crate::canon::{each_expr_tokens, expr_tokens, operator_token};
use crate::grammar::{
    binary, lemma_parse_arg_list, lemma_parse_expr, lemma_parse_expr_rest, lemma_parse_factor,
    lemma_parse_function, lemma_parse_more_args, lemma_parse_term, lemma_parse_term_rest, negation,
    parse_arg_list, parse_expr, parse_expr_rest, parse_factor, parse_more_args, parse_term,
    parse_term_rest, path,
};
use crate::lex::Token;
use crate::print::{expr_text, expr_texts};
use crate::roundtrip::lexing::lemma_assoc;
use crate::text::{after, join};

verus! {

/// A piece of an expression written without parentheses.
pub enum Piece {
    /// The sign of a negation.
    Neg,
    /// A binary operator.
    Op(char),
    /// A literal, a name, a path or a call.
    Atom(SpecExpr),
}

/// Whether `c` is one of the four binary operators.
pub open spec fn is_operator(c: char) -> bool {
    c == '+' || c == '-' || c == '*' || c == '/'
}

/// Whether `c` is one of the two operators that bind tighter.
pub open spec fn is_multiplicative(c: char) -> bool {
    c == '*' || c == '/'
}

/// The pieces of the expression `e`, from left to right.
pub open spec fn pieces(e: SpecExpr) -> Seq<Piece>
    decreases e,
{
    match e {
        SpecExpr::Operator { operator, left, right } => pieces(*left) + seq![Piece::Op(operator)]
            + pieces(*right),
        SpecExpr::UnaryOperator { operator, operand } => seq![Piece::Neg] + pieces(*operand),
        _ => seq![Piece::Atom(e)],
    }
}

/// The tokens of the piece `p`.
pub open spec fn piece_tokens(p: Piece) -> Seq<Token> {
    match p {
        Piece::Neg => seq![Token::Minus],
        Piece::Op(c) => seq![operator_token(c)],
        Piece::Atom(a) => expr_tokens(a),
    }
}

/// The printed text of the piece `p`.
pub open spec fn piece_text(p: Piece) -> Seq<char> {
    match p {
        Piece::Neg => seq!['-'],
        Piece::Op(c) => seq![' ', c, ' '],
        Piece::Atom(a) => expr_text(a),
    }
}

/// The tokens of the pieces `ps`, from left to right.
pub open spec fn pieces_tokens(ps: Seq<Piece>) -> Seq<Token>
    decreases ps.len(),
{
    if ps.len() == 0 {
        Seq::empty()
    } else {
        piece_tokens(ps[0]) + pieces_tokens(ps.skip(1))
    }
}

/// The printed text of the pieces `ps`, from left to right.
pub open spec fn pieces_text(ps: Seq<Piece>) -> Seq<char>
    decreases ps.len(),
{
    if ps.len() == 0 {
        Seq::empty()
    } else {
        piece_text(ps[0]) + pieces_text(ps.skip(1))
    }
}

/// Whether `z` starts with a token that ends an expression: the end of a line, a comma or
/// a closing parenthesis.
pub open spec fn stops(z: Seq<Token>) -> bool {
    z.len() > 0 && (z[0] is EOL || z[0] is Comma || z[0] is ClosePar)
}

/// Whether `z` starts with a token that ends a term.
pub open spec fn ends_term(z: Seq<Token>) -> bool {
    z.len() > 0 && (z[0] is EOL || z[0] is Comma || z[0] is ClosePar || z[0] is Plus
        || z[0] is Minus)
}

/// Whether `z` starts with a token that may stand behind an atom.
pub open spec fn ends_atom(z: Seq<Token>) -> bool {
    z.len() > 0 && (z[0] is EOL || z[0] is Comma || z[0] is ClosePar || z[0] is Plus
        || z[0] is Minus || z[0] is Mul || z[0] is Div)
}

/// Whether the parser reads the tokens of `a` before `z` as a factor with the printed text
/// of `a`.
pub open spec fn factor_reparses(a: SpecExpr, z: Seq<Token>) -> bool {
    parse_factor(expr_tokens(a) + z) matches Ok((f, n)) && n == expr_tokens(a).len()
        && expr_text(f) == expr_text(a) && f.well_formed()
}

/// Whether the parser reads the tokens of `e` before `z` as an expression with the printed
/// text of `e`.
pub open spec fn expr_reparses(e: SpecExpr, z: Seq<Token>) -> bool {
    parse_expr(expr_tokens(e) + z) matches Ok((again, n)) && n == expr_tokens(e).len()
        && expr_text(again) == expr_text(e) && again.well_formed()
}

/// Whether `a` is an atom that the parser reads back wherever an atom may stand.
pub open spec fn atom_ready(a: SpecExpr) -> bool {
    &&& !(a is Operator)
    &&& !(a is UnaryOperator)
    &&& expr_tokens(a).len() > 0
    &&& forall|z: Seq<Token>| ends_atom(z) ==> #[trigger] factor_reparses(a, z)
}

/// Whether `ps` is a row of pieces in which operands and operators take turns and which
/// ends with an atom: signs and an atom where `operand` says that an operand is due, an
/// operator else. In a term (`in_term`) the operators are multiplicative.
pub open spec fn shaped(ps: Seq<Piece>, operand: bool, in_term: bool) -> bool
    decreases ps.len(),
{
    if ps.len() == 0 {
        !operand
    } else {
        match ps[0] {
            Piece::Neg => operand && shaped(ps.skip(1), true, in_term),
            Piece::Atom(a) => operand && atom_ready(a) && shaped(ps.skip(1), false, in_term),
            Piece::Op(c) => !operand && is_operator(c) && (in_term ==> is_multiplicative(c))
                && shaped(ps.skip(1), true, in_term),
        }
    }
}

/// How many pieces stand before the first additive operator of `ps`.
pub open spec fn term_run(ps: Seq<Piece>) -> nat
    decreases ps.len(),
{
    if ps.len() == 0 {
        0
    } else if ps[0] == Piece::Op('+') || ps[0] == Piece::Op('-') {
        0
    } else {
        1 + term_run(ps.skip(1))
    }
}

/// The tokens of a row of pieces are those of its parts.
pub proof fn lemma_pieces_tokens_add(a: Seq<Piece>, b: Seq<Piece>)
    ensures
        pieces_tokens(a + b) == pieces_tokens(a) + pieces_tokens(b),
    decreases a.len(),
{
    if a.len() == 0 {
        assert(a + b =~= b);
        assert(pieces_tokens(a) + pieces_tokens(b) =~= pieces_tokens(b));
    } else {
        assert((a + b).skip(1) =~= a.skip(1) + b);
        assert((a + b)[0] == a[0]);
        lemma_pieces_tokens_add(a.skip(1), b);
        lemma_assoc(piece_tokens(a[0]), pieces_tokens(a.skip(1)), pieces_tokens(b));
    }
}

/// The text of a row of pieces is that of its parts.
pub proof fn lemma_pieces_text_add(a: Seq<Piece>, b: Seq<Piece>)
    ensures
        pieces_text(a + b) == pieces_text(a) + pieces_text(b),
    decreases a.len(),
{
    if a.len() == 0 {
        assert(a + b =~= b);
        assert(pieces_text(a) + pieces_text(b) =~= pieces_text(b));
    } else {
        assert((a + b).skip(1) =~= a.skip(1) + b);
        assert((a + b)[0] == a[0]);
        lemma_pieces_text_add(a.skip(1), b);
        lemma_assoc(piece_text(a[0]), pieces_text(a.skip(1)), pieces_text(b));
    }
}

/// A complete row before a row that starts with an operator is a complete row.
pub proof fn lemma_shaped_add(a: Seq<Piece>, b: Seq<Piece>, operand: bool)
    requires
        shaped(a, operand, false),
        shaped(b, false, false),
    ensures
        shaped(a + b, operand, false),
    decreases a.len(),
{
    if a.len() == 0 {
        assert(a + b =~= b);
    } else {
        assert((a + b).skip(1) =~= a.skip(1) + b);
        assert((a + b)[0] == a[0]);
        match a[0] {
            Piece::Neg => lemma_shaped_add(a.skip(1), b, true),
            Piece::Atom(_) => lemma_shaped_add(a.skip(1), b, false),
            Piece::Op(_) => lemma_shaped_add(a.skip(1), b, true),
        }
    }
}

/// The pieces before the first additive operator of a row are a term, and the pieces from
/// that operator on are a row that starts with it.
pub proof fn lemma_term_run(ps: Seq<Piece>, operand: bool)
    requires
        shaped(ps, operand, false),
    ensures
        term_run(ps) <= ps.len(),
        operand ==> term_run(ps) >= 1,
        shaped(ps.take(term_run(ps) as int), operand, true),
        shaped(ps.skip(term_run(ps) as int), false, false),
        term_run(ps) < ps.len() ==> ps[term_run(ps) as int] == Piece::Op('+') || ps[term_run(
            ps,
        ) as int] == Piece::Op('-'),
    decreases ps.len(),
{
    let m = term_run(ps);
    if ps.len() == 0 {
        assert(ps.take(0) =~= ps);
        assert(ps.skip(0) =~= ps);
    } else if ps[0] == Piece::Op('+') || ps[0] == Piece::Op('-') {
        assert(ps.take(0) =~= Seq::<Piece>::empty());
        assert(ps.skip(0) =~= ps);
    } else {
        let next = !(ps[0] is Atom);
        lemma_term_run(ps.skip(1), next);
        assert(ps.take(m as int).skip(1) =~= ps.skip(1).take(m - 1));
        assert(ps.skip(m as int) =~= ps.skip(1).skip(m - 1));
        assert(ps.take(m as int)[0] == ps[0]);
    }
}

/// The parser reads a factor at the front of a term: an atom, or a sign and the whole term
/// behind it.
pub proof fn lemma_factor(run: Seq<Piece>, z: Seq<Token>) -> (k: nat)
    requires
        shaped(run, true, true),
        ends_term(z),
    ensures
        1 <= k <= run.len(),
        shaped(run.skip(k as int), false, true),
        parse_factor(pieces_tokens(run) + z) matches Ok((f, n)) && n == pieces_tokens(
            run.take(k as int),
        ).len() && expr_text(f) == pieces_text(run.take(k as int)) && f.well_formed(),
    decreases run.len(), 0nat,
{
    let all = pieces_tokens(run) + z;
    lemma_parse_factor(all);
    let behind = pieces_tokens(run.skip(1)) + z;
    lemma_assoc(piece_tokens(run[0]), pieces_tokens(run.skip(1)), z);
    assert(all == piece_tokens(run[0]) + behind);
    match run[0] {
        Piece::Atom(a) => {
            lemma_shaped_front(run.skip(1), z, true);
            assert(factor_reparses(a, behind));
            assert(run.take(1) =~= seq![run[0]]);
            lemma_single_piece(run[0]);
            1
        },
        Piece::Neg => {
            lemma_term(run.skip(1), z);
            assert(all[0] == Token::Minus);
            assert(after(all, 1) =~= behind);
            assert(run.take(run.len() as int) =~= run);
            assert(run.skip(run.len() as int) =~= Seq::<Piece>::empty());
            let inner = parse_term(behind)->Ok_0.0;
            assert(parse_factor(all)->Ok_0.0 == negation(inner));
            assert(expr_text(negation(inner)) =~= seq!['-'] + expr_text(inner));
            run.len()
        },
        Piece::Op(_) => {
            1
        },
    }
}

/// What stands behind a row of pieces that is due an operator: the token of an operator,
/// or what follows the row.
pub proof fn lemma_shaped_front(ps: Seq<Piece>, z: Seq<Token>, in_term: bool)
    requires
        shaped(ps, false, in_term),
        ends_term(z),
    ensures
        ends_atom(pieces_tokens(ps) + z),
        in_term && ps.len() > 0 ==> (pieces_tokens(ps) + z)[0] is Mul || (pieces_tokens(ps)
            + z)[0] is Div,
        ps.len() == 0 ==> pieces_tokens(ps) + z == z,
{
    if ps.len() == 0 {
        assert(pieces_tokens(ps) + z =~= z);
    } else {
        assert((pieces_tokens(ps) + z)[0] == piece_tokens(ps[0])[0]);
    }
}

/// The tokens and the text of a single piece.
pub proof fn lemma_single_piece(p: Piece)
    ensures
        pieces_tokens(seq![p]) == piece_tokens(p),
        pieces_text(seq![p]) == piece_text(p),
{
    let none = seq![p].skip(1);
    assert(none =~= Seq::<Piece>::empty());
    assert(pieces_tokens(none) =~= Seq::<Token>::empty());
    assert(pieces_text(none) =~= Seq::<char>::empty());
    assert(pieces_tokens(seq![p]) =~= piece_tokens(p));
    assert(pieces_text(seq![p]) =~= piece_text(p));
}

/// The parser reads the factors behind a term, each with its operator, up to the end of
/// the term.
pub proof fn lemma_term_rest(left: SpecExpr, run: Seq<Piece>, z: Seq<Token>)
    requires
        left.well_formed(),
        shaped(run, false, true),
        ends_term(z),
    ensures
        parse_term_rest(left, pieces_tokens(run) + z) matches Ok((t, n)) && n == pieces_tokens(
            run,
        ).len() && expr_text(t) == expr_text(left) + pieces_text(run) && t.well_formed(),
    decreases run.len(), 1nat,
{
    let all = pieces_tokens(run) + z;
    lemma_parse_term_rest(left, all);
    if run.len() == 0 {
        assert(all =~= z);
        assert(expr_text(left) + pieces_text(run) =~= expr_text(left));
    } else {
        let c = run[0]->Op_0;
        let operands = run.skip(1);
        let behind = pieces_tokens(operands) + z;
        lemma_assoc(piece_tokens(run[0]), pieces_tokens(operands), z);
        assert(all == seq![operator_token(c)] + behind);
        assert(all[0] == operator_token(c));
        assert(after(all, 1) =~= behind);
        let k = lemma_factor(operands, z);
        let f = parse_factor(behind)->Ok_0.0;
        let n = parse_factor(behind)->Ok_0.1;
        let taken = operands.take(k as int);
        let others = operands.skip(k as int);
        assert(operands =~= taken + others);
        lemma_pieces_tokens_add(taken, others);
        lemma_pieces_text_add(taken, others);
        lemma_assoc(pieces_tokens(taken), pieces_tokens(others), z);
        assert(after(all, 1 + n) =~= pieces_tokens(others) + z);
        let joined = binary(c, left, f);
        assert(expr_text(joined) =~= expr_text(left) + seq![' ', c, ' '] + expr_text(f));
        lemma_term_rest(joined, others, z);
        assert(pieces_text(run) =~= seq![' ', c, ' '] + (pieces_text(taken) + pieces_text(
            others,
        )));
        assert(pieces_tokens(run).len() == 1 + n + pieces_tokens(others).len());
        assert(expr_text(joined) + pieces_text(others) =~= expr_text(left) + pieces_text(run));
    }
}

/// The parser reads a term before what ends it.
pub proof fn lemma_term(run: Seq<Piece>, z: Seq<Token>)
    requires
        shaped(run, true, true),
        ends_term(z),
    ensures
        parse_term(pieces_tokens(run) + z) matches Ok((t, n)) && n == pieces_tokens(run).len()
            && expr_text(t) == pieces_text(run) && t.well_formed(),
    decreases run.len(), 2nat,
{
    let all = pieces_tokens(run) + z;
    lemma_parse_term(all);
    let k = lemma_factor(run, z);
    let f = parse_factor(all)->Ok_0.0;
    let n = parse_factor(all)->Ok_0.1;
    let taken = run.take(k as int);
    let others = run.skip(k as int);
    assert(run =~= taken + others);
    lemma_pieces_tokens_add(taken, others);
    lemma_pieces_text_add(taken, others);
    lemma_assoc(pieces_tokens(taken), pieces_tokens(others), z);
    assert(after(all, n) =~= pieces_tokens(others) + z);
    lemma_term_rest(f, others, z);
}

/// The parser reads the terms behind an expression, each with its operator, up to what
/// ends the expression.
pub proof fn lemma_expr_rest(left: SpecExpr, ps: Seq<Piece>, z: Seq<Token>)
    requires
        left.well_formed(),
        shaped(ps, false, false),
        ps.len() > 0 ==> ps[0] == Piece::Op('+') || ps[0] == Piece::Op('-'),
        stops(z),
    ensures
        parse_expr_rest(left, pieces_tokens(ps) + z) matches Ok((e, n)) && n == pieces_tokens(
            ps,
        ).len() && expr_text(e) == expr_text(left) + pieces_text(ps) && e.well_formed(),
    decreases ps.len(),
{
    let all = pieces_tokens(ps) + z;
    lemma_parse_expr_rest(left, all);
    if ps.len() == 0 {
        assert(all =~= z);
        assert(expr_text(left) + pieces_text(ps) =~= expr_text(left));
    } else {
        let c = ps[0]->Op_0;
        let operands = ps.skip(1);
        let behind = pieces_tokens(operands) + z;
        lemma_assoc(piece_tokens(ps[0]), pieces_tokens(operands), z);
        assert(all == seq![operator_token(c)] + behind);
        assert(all[0] == operator_token(c));
        assert(after(all, 1) =~= behind);
        lemma_term_run(operands, true);
        let m = term_run(operands);
        let taken = operands.take(m as int);
        let others = operands.skip(m as int);
        assert(operands =~= taken + others);
        lemma_pieces_tokens_add(taken, others);
        lemma_pieces_text_add(taken, others);
        lemma_assoc(pieces_tokens(taken), pieces_tokens(others), z);
        lemma_row_front(others, z);
        lemma_term(taken, pieces_tokens(others) + z);
        let t = parse_term(behind)->Ok_0.0;
        let n = parse_term(behind)->Ok_0.1;
        assert(after(all, 1 + n) =~= pieces_tokens(others) + z);
        let joined = binary(c, left, t);
        assert(expr_text(joined) =~= expr_text(left) + seq![' ', c, ' '] + expr_text(t));
        lemma_expr_rest(joined, others, z);
        assert(pieces_text(ps) =~= seq![' ', c, ' '] + (pieces_text(taken) + pieces_text(
            others,
        )));
        assert(pieces_tokens(ps).len() == 1 + n + pieces_tokens(others).len());
        assert(expr_text(joined) + pieces_text(others) =~= expr_text(left) + pieces_text(ps));
    }
}

/// What stands behind a term in a row: the token of an additive operator, or what follows
/// the row.
pub proof fn lemma_row_front(ps: Seq<Piece>, z: Seq<Token>)
    requires
        ps.len() > 0 ==> ps[0] == Piece::Op('+') || ps[0] == Piece::Op('-'),
        stops(z),
    ensures
        ends_term(pieces_tokens(ps) + z),
{
    if ps.len() == 0 {
        assert(pieces_tokens(ps) + z =~= z);
    } else {
        assert((pieces_tokens(ps) + z)[0] == piece_tokens(ps[0])[0]);
    }
}

/// The parser reads a row of pieces, before what ends an expression, as an expression with
/// the text of the row.
pub proof fn lemma_row(ps: Seq<Piece>, z: Seq<Token>)
    requires
        shaped(ps, true, false),
        stops(z),
    ensures
        parse_expr(pieces_tokens(ps) + z) matches Ok((e, n)) && n == pieces_tokens(ps).len()
            && expr_text(e) == pieces_text(ps) && e.well_formed(),
{
    let all = pieces_tokens(ps) + z;
    lemma_parse_expr(all);
    lemma_term_run(ps, true);
    let m = term_run(ps);
    let taken = ps.take(m as int);
    let others = ps.skip(m as int);
    assert(ps =~= taken + others);
    lemma_pieces_tokens_add(taken, others);
    lemma_pieces_text_add(taken, others);
    lemma_assoc(pieces_tokens(taken), pieces_tokens(others), z);
    lemma_row_front(others, z);
    lemma_term(taken, pieces_tokens(others) + z);
    let n = parse_term(all)->Ok_0.1;
    let t = parse_term(all)->Ok_0.0;
    assert(after(all, n) =~= pieces_tokens(others) + z);
    lemma_expr_rest(t, others, z);
}

/// Whether the expressions `again` are as many as `args`, each with the printed text of the
/// one of `args` in its place, and well formed.
pub open spec fn alike(args: Seq<SpecExpr>, again: Seq<SpecExpr>) -> bool {
    &&& again.len() == args.len()
    &&& forall|i: int|
        0 <= i < args.len() ==> expr_text(#[trigger] again[i]) == expr_text(args[i])
            && again[i].well_formed()
}

/// The tokens of the arguments of `args` from the one at `k` on, each with a comma before
/// it.
pub open spec fn rest_tokens(args: Seq<SpecExpr>, k: nat) -> Seq<Token>
    decreases args.len() - k,
{
    if k >= args.len() {
        Seq::empty()
    } else {
        seq![Token::Comma] + expr_tokens(args[k as int]) + rest_tokens(args, k + 1)
    }
}

/// The tokens of a list of arguments are those of its first `k` and, with their commas,
/// those of the others.
pub proof fn lemma_join_rest(args: Seq<SpecExpr>, k: nat)
    requires
        1 <= k <= args.len(),
    ensures
        join(each_expr_tokens(args), seq![Token::Comma]) == join(
            each_expr_tokens(args).take(k as int),
            seq![Token::Comma],
        ) + rest_tokens(args, k),
    decreases args.len() - k,
{
    let parts = each_expr_tokens(args);
    let comma = seq![Token::Comma];
    if k == args.len() {
        assert(parts.take(k as int) =~= parts);
        assert(join(parts, comma) + rest_tokens(args, k) =~= join(parts, comma));
    } else {
        lemma_join_rest(args, k + 1);
        assert(parts.take(k as int + 1).drop_last() =~= parts.take(k as int));
        assert(parts.take(k as int + 1).last() == expr_tokens(args[k as int]));
        lemma_assoc(join(parts.take(k as int), comma), comma, expr_tokens(args[k as int]));
        lemma_assoc(
            join(parts.take(k as int), comma),
            comma + expr_tokens(args[k as int]),
            rest_tokens(args, k + 1),
        );
    }
}

/// The tokens of an expression start with a literal, a name or a sign.
pub proof fn lemma_tokens_start(e: SpecExpr)
    ensures
        expr_tokens(e).len() > 0,
        expr_tokens(e)[0] is Number || expr_tokens(e)[0] is String || expr_tokens(e)[0]
            is Identifier || expr_tokens(e)[0] is Minus,
    decreases e,
{
    match e {
        SpecExpr::Operator { operator, left, right } => {
            lemma_tokens_start(*left);
            assert(expr_tokens(e)[0] == expr_tokens(*left)[0]);
        },
        _ => {},
    }
}

/// The parser reads the canonical tokens of a well-formed expression, before what ends an
/// expression, as a well-formed expression with the same printed text, and reads nothing
/// more.
pub proof fn lemma_expr_reparses(e: SpecExpr, z: Seq<Token>)
    requires
        e.well_formed(),
        stops(z),
    ensures
        expr_reparses(e, z),
    decreases e, 2nat,
{
    lemma_pieces(e);
    lemma_row(pieces(e), z);
}

/// The pieces of a well-formed expression are a row that the parser can read, with the
/// tokens and the text of the expression.
pub proof fn lemma_pieces(e: SpecExpr)
    requires
        e.well_formed(),
    ensures
        shaped(pieces(e), true, false),
        pieces_tokens(pieces(e)) == expr_tokens(e),
        pieces_text(pieces(e)) == expr_text(e),
    decreases e, 1nat,
{
    match e {
        SpecExpr::Operator { operator, left, right } => {
            lemma_pieces(*left);
            lemma_pieces(*right);
            let op = seq![Piece::Op(operator)];
            let behind = op + pieces(*right);
            assert(behind.skip(1) =~= pieces(*right));
            assert(behind[0] == Piece::Op(operator));
            assert(shaped(behind, false, false));
            lemma_assoc(pieces(*left), op, pieces(*right));
            lemma_shaped_add(pieces(*left), behind, true);
            lemma_single_piece(Piece::Op(operator));
            lemma_pieces_tokens_add(op, pieces(*right));
            lemma_pieces_tokens_add(pieces(*left), behind);
            lemma_pieces_text_add(op, pieces(*right));
            lemma_pieces_text_add(pieces(*left), behind);
            lemma_assoc(expr_tokens(*left), seq![operator_token(operator)], expr_tokens(*right));
            lemma_assoc(expr_text(*left), seq![' ', operator, ' '], expr_text(*right));
        },
        SpecExpr::UnaryOperator { operator, operand } => {
            lemma_pieces(*operand);
            let ps = pieces(e);
            assert(ps.skip(1) =~= pieces(*operand));
            assert(ps[0] == Piece::Neg);
        },
        _ => {
            lemma_atom_ready(e);
            let ps = pieces(e);
            assert(ps.skip(1) =~= Seq::<Piece>::empty());
            assert(shaped(ps.skip(1), false, false));
            lemma_single_piece(Piece::Atom(e));
        },
    }
}

/// The parser reads the tokens of a well-formed atom back wherever an atom may stand.
pub proof fn lemma_atom_ready(a: SpecExpr)
    requires
        a.well_formed(),
        !(a is Operator),
        !(a is UnaryOperator),
    ensures
        atom_ready(a),
    decreases a, 0nat,
{
    lemma_tokens_start(a);
    assert forall|z: Seq<Token>| ends_atom(z) implies #[trigger] factor_reparses(a, z) by {
        let all = expr_tokens(a) + z;
        lemma_parse_factor(all);
        match a {
            SpecExpr::Function { name, args } => {
                lemma_function_reparses(name, args, z);
            },
            SpecExpr::VPath(p) => {
                assert(all[0] == Token::Identifier(p.table->Some_0));
                assert(all[1] == Token::Colon);
                assert(all[2] == Token::Identifier(p.field->Some_0));
                assert(path(p.table->Some_0, p.field->Some_0) == a);
            },
            SpecExpr::Identifier(v) => {
                assert(all[0] == Token::Identifier(v));
                assert(all[1] == z[0]);
            },
            _ => {
                assert(all[0] == expr_tokens(a)[0]);
            },
        }
    }
}

/// The parser reads the tokens of a call with well-formed arguments back as a call with the
/// same printed text.
pub proof fn lemma_function_reparses(name: Seq<char>, args: Seq<SpecExpr>, z: Seq<Token>)
    requires
        (SpecExpr::Function { name, args }).well_formed(),
    ensures
        factor_reparses(SpecExpr::Function { name, args }, z),
    decreases args, args.len() + 2,
{
    let a = SpecExpr::Function { name, args };
    let inside = join(each_expr_tokens(args), seq![Token::Comma]);
    let close = seq![Token::ClosePar] + z;
    let all = expr_tokens(a) + z;
    lemma_assoc(seq![Token::Identifier(name), Token::OpenPar] + inside, seq![Token::ClosePar], z);
    lemma_assoc(seq![Token::Identifier(name), Token::OpenPar], inside, close);
    assert(all == seq![Token::Identifier(name), Token::OpenPar] + (inside + close));
    assert(all[0] == Token::Identifier(name));
    assert(all[1] == Token::OpenPar);
    assert(after(all, 2) =~= inside + close);
    lemma_parse_factor(all);
    lemma_parse_function(all);
    lemma_arg_list(args, close);
    let again = parse_arg_list(inside + close)->Ok_0.0;
    let n = parse_arg_list(inside + close)->Ok_0.1;
    assert(all[2 + n as int] == Token::ClosePar);
    assert(expr_texts(again) =~= expr_texts(args));
}

/// The parser reads the tokens of well-formed arguments, before a closing parenthesis, as
/// arguments with the same printed texts.
pub proof fn lemma_arg_list(args: Seq<SpecExpr>, z: Seq<Token>)
    requires
        forall|i: int| 0 <= i < args.len() ==> (#[trigger] args[i]).well_formed(),
        z.len() > 0,
        z[0] is ClosePar,
    ensures
        parse_arg_list(join(each_expr_tokens(args), seq![Token::Comma]) + z) matches Ok(
            (again, n),
        ) && n == join(each_expr_tokens(args), seq![Token::Comma]).len() && alike(args, again),
    decreases args, args.len() + 1,
{
    let inside = join(each_expr_tokens(args), seq![Token::Comma]);
    let all = inside + z;
    lemma_parse_arg_list(all);
    if args.len() == 0 {
        assert(all =~= z);
    } else {
        let first = expr_tokens(args[0]);
        let others = rest_tokens(args, 1) + z;
        lemma_join_rest(args, 1);
        assert(each_expr_tokens(args).take(1)[0] == first);
        lemma_assoc(first, rest_tokens(args, 1), z);
        assert(all == first + others);
        lemma_tokens_start(args[0]);
        assert(all[0] == first[0]);
        lemma_rest_front(args, 1, z);
        lemma_expr_reparses(args[0], others);
        let a0 = parse_expr(all)->Ok_0.0;
        let n0 = parse_expr(all)->Ok_0.1;
        assert(after(all, n0) =~= others);
        lemma_more_args(args, 1, seq![a0], z);
    }
}

/// What stands behind an argument: a comma, or the closing parenthesis behind the last.
pub proof fn lemma_rest_front(args: Seq<SpecExpr>, k: nat, z: Seq<Token>)
    requires
        z.len() > 0,
        z[0] is ClosePar,
    ensures
        stops(rest_tokens(args, k) + z),
        k >= args.len() ==> rest_tokens(args, k) + z == z,
        k < args.len() ==> (rest_tokens(args, k) + z)[0] is Comma,
{
    if k >= args.len() {
        assert(rest_tokens(args, k) + z =~= z);
    } else {
        assert((rest_tokens(args, k) + z)[0] == Token::Comma);
    }
}

/// The parser reads the tokens of the arguments from the one at `k` on, each behind its
/// comma, as arguments with the same printed texts, behind those that it has read.
pub proof fn lemma_more_args(args: Seq<SpecExpr>, k: nat, acc: Seq<SpecExpr>, z: Seq<Token>)
    requires
        forall|i: int| 0 <= i < args.len() ==> (#[trigger] args[i]).well_formed(),
        1 <= k <= args.len(),
        acc.len() == k,
        forall|i: int|
            0 <= i < k ==> expr_text(#[trigger] acc[i]) == expr_text(args[i])
                && acc[i].well_formed(),
        z.len() > 0,
        z[0] is ClosePar,
    ensures
        parse_more_args(acc, rest_tokens(args, k) + z) matches Ok((again, n)) && n
            == rest_tokens(args, k).len() && alike(args, again),
    decreases args, args.len() - k,
{
    let all = rest_tokens(args, k) + z;
    lemma_parse_more_args(acc, all);
    lemma_rest_front(args, k, z);
    if k < args.len() {
        let arg = expr_tokens(args[k as int]);
        let others = rest_tokens(args, k + 1) + z;
        lemma_assoc(seq![Token::Comma] + arg, rest_tokens(args, k + 1), z);
        lemma_assoc(seq![Token::Comma], arg, others);
        assert(all == seq![Token::Comma] + (arg + others));
        assert(after(all, 1) =~= arg + others);
        lemma_rest_front(args, k + 1, z);
        lemma_expr_reparses(args[k as int], others);
        let ak = parse_expr(arg + others)->Ok_0.0;
        let nk = parse_expr(arg + others)->Ok_0.1;
        assert(after(all, 1 + nk) =~= others);
        let more = acc.push(ak);
        assert forall|i: int| 0 <= i < k + 1 implies expr_text(#[trigger] more[i]) == expr_text(
            args[i],
        ) && more[i].well_formed() by {
            if i < k {
                assert(more[i] == acc[i]);
            }
        }
        lemma_more_args(args, k + 1, more, z);
    }
}

} // verus!
