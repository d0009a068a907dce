//! The printer: a syntax tree back to canonical CDL text.
//!
//! Every entity starts on a line of its own, indented by four spaces for each entity around
//! it; its fields come first, then its children, each one level deeper; its closing brace
//! stands at the entity's own indentation. Expressions are printed without parentheses.

use vstd::prelude::*;
use crate::ast::{
    exprs_view, AstEntityBodyNode, AstEntityHeaderNode, AstEntityNode, AstFieldNode, AstRootNode,
    Expr, SpecBody, SpecEntity, SpecExpr, SpecField, SpecHeader, SpecRoot, SpecVPath,
};
use crate::text::{concat, join, push_char, push_text};

verus! {

/// The text `o`, or nothing.
pub open spec fn optional(o: Option<Seq<char>>) -> Seq<char> {
    match o {
        Some(text) => text,
        None => Seq::empty(),
    }
}

/// The indentation of an entity with `level` entities around it: four spaces for each.
pub open spec fn indentation(level: nat) -> Seq<char> {
    Seq::new(4 * level, |i: int| ' ')
}

/// The indentation one level deeper than `indent`.
pub open spec fn deeper(indent: Seq<char>) -> Seq<char> {
    indent + seq![' ', ' ', ' ', ' ']
}

/// `[table][sub_table]:[field][sub_field]`.
pub open spec fn vpath_text(path: SpecVPath) -> Seq<char> {
    optional(path.table) + optional(path.sub_table) + seq![':'] + optional(path.field) + optional(
        path.sub_field,
    )
}

/// The text of the expression `e`: literals as they are spelled, strings in quotes, a call
/// as `name(arg, arg)`, a binary operation as `left op right`, a negation as `-operand`.
pub open spec fn expr_text(e: SpecExpr) -> Seq<char>
    decreases e,
{
    match e {
        SpecExpr::String(value) => seq!['"'] + value + seq!['"'],
        SpecExpr::Identifier(value) => value,
        SpecExpr::Number(text) => text,
        SpecExpr::Function { name, args } => name + seq!['('] + join(
            expr_texts(args),
            seq![',', ' '],
        ) + seq![')'],
        SpecExpr::VPath(path) => vpath_text(path),
        SpecExpr::Operator { operator, left, right } => expr_text(*left) + seq![' ', operator, ' ']
            + expr_text(*right),
        SpecExpr::UnaryOperator { operator, operand } => seq![operator] + expr_text(*operand),
    }
}

/// The texts of the expressions `args`, in order.
pub open spec fn expr_texts(args: Seq<SpecExpr>) -> Seq<Seq<char>>
    decreases args,
{
    Seq::new(
        args.len(),
        |i: int|
            if 0 <= i < args.len() {
                expr_text(args[i])
            } else {
                Seq::empty()
            },
    )
}

/// `<main_type> [<sub_type> ][#<identifier> ][@<reference> ]`.
pub open spec fn header_text(header: SpecHeader) -> Seq<char> {
    header.main_type + seq![' '] + (match header.sub_type {
        Some(sub_type) => sub_type + seq![' '],
        None => Seq::empty(),
    }) + (match header.identifier {
        Some(identifier) => seq!['#'] + identifier + seq![' '],
        None => Seq::empty(),
    }) + (match header.reference {
        Some(reference) => seq!['@'] + reference + seq![' '],
        None => Seq::empty(),
    })
}

/// `<indent><name>: <expr>` and a newline.
pub open spec fn field_text(field: SpecField, indent: Seq<char>) -> Seq<char> {
    indent + field.identifier + seq![':', ' '] + expr_text(field.value) + seq!['\n']
}

/// The lines of the fields `fields`, in order.
pub open spec fn field_texts(fields: Seq<SpecField>, indent: Seq<char>) -> Seq<Seq<char>> {
    Seq::new(fields.len(), |i: int| field_text(fields[i], indent))
}

/// The lines of the entity `e`, whose header and closing brace are indented by `indent`.
pub open spec fn entity_text(e: SpecEntity, indent: Seq<char>) -> Seq<char>
    decreases e,
{
    indent + header_text(e.header) + seq!['{', '\n'] + concat(
        field_texts(e.body.fields, deeper(indent)),
    ) + concat(entity_texts(e.body.children, deeper(indent))) + indent + seq!['}', '\n']
}

/// The lines of each of the entities `entities`, in order.
pub open spec fn entity_texts(entities: Seq<SpecEntity>, indent: Seq<char>) -> Seq<Seq<char>>
    decreases entities,
{
    Seq::new(
        entities.len(),
        |i: int|
            if 0 <= i < entities.len() {
                entity_text(entities[i], indent)
            } else {
                Seq::empty()
            },
    )
}

/// The lines of a body and the closing brace behind them.
pub open spec fn body_text(body: SpecBody, indent: Seq<char>) -> Seq<char> {
    seq!['{', '\n'] + concat(field_texts(body.fields, deeper(indent))) + concat(
        entity_texts(body.children, deeper(indent)),
    ) + indent + seq!['}', '\n']
}

/// The canonical text of the document `root`: its entities one after the other, not
/// indented.
pub open spec fn root_text(root: SpecRoot) -> Seq<char> {
    concat(entity_texts(root.children, Seq::empty()))
}

/// The text of an entity is its indented header and the text of its body.
pub proof fn lemma_entity_text(e: SpecEntity, indent: Seq<char>)
    ensures
        entity_text(e, indent) == indent + header_text(e.header) + body_text(e.body, indent),
{
    assert(entity_text(e, indent) =~= indent + header_text(e.header) + body_text(
        e.body,
        indent,
    ));
}

/// Prints the document `root` as canonical CDL text.
pub fn print(root: AstRootNode) -> (text: String)
    ensures
        text@ == root_text(root@),
{
    let indent = create_indent(0);
    assert(indent@ =~= Seq::empty());
    let mut res = String::new();
    let ghost parts = entity_texts(root@.children, Seq::empty());
    let mut i: usize = 0;
    assert(parts.take(0) =~= Seq::empty());
    while i < root.children.len()
        invariant
            i <= root.children.len(),
            indent@ == Seq::<char>::empty(),
            parts == entity_texts(root@.children, Seq::empty()),
            parts.len() == root.children.len(),
            res@ == concat(parts.take(i as int)),
        decreases root.children.len() - i,
    {
        let child_str = print_entity(&root.children[i], indent.as_str());
        push_text(&mut res, child_str.as_str());
        proof {
            assert(parts.take(i + 1).drop_last() =~= parts.take(i as int));
            assert(parts.take(i + 1).last() == child_str@);
        }
        i += 1;
    }
    assert(parts.take(i as int) =~= parts);
    res
}

/// Prints the entity `entity`, which is indented by `indent`.
pub fn print_entity(entity: &AstEntityNode, indent: &str) -> (text: String)
    ensures
        text@ == entity_text(entity@, indent@),
    decreases entity, 1nat,
{
    let mut res = print_entity_header(&entity.header, indent);
    let body = print_entity_body(&entity.body, indent);
    push_text(&mut res, body.as_str());
    proof {
        lemma_entity_text(entity@, indent@);
    }
    res
}

/// Prints the header `header` behind the indentation `indent`, up to the opening brace.
pub fn print_entity_header(header: &AstEntityHeaderNode, indent: &str) -> (text: String)
    ensures
        text@ == indent@ + header_text(header@),
{
    let mut res = String::new();
    push_text(&mut res, indent);
    push_text(&mut res, header.main_type.as_str());
    push_char(&mut res, ' ');
    let ghost start = res@;
    assert(start =~= indent@ + (header@.main_type + seq![' ']));
    match &header.sub_type {
        Some(id) => {
            push_text(&mut res, id.as_str());
            push_char(&mut res, ' ');
            assert(res@ =~= start + (id@ + seq![' ']));
        },
        None => {
            assert(res@ =~= start + Seq::<char>::empty());
        },
    }
    let ghost with_sub = res@;
    match &header.identifier {
        Some(id) => {
            push_char(&mut res, '#');
            push_text(&mut res, id.as_str());
            push_char(&mut res, ' ');
            assert(res@ =~= with_sub + (seq!['#'] + id@ + seq![' ']));
        },
        None => {
            assert(res@ =~= with_sub + Seq::<char>::empty());
        },
    }
    let ghost with_id = res@;
    match &header.reference {
        Some(id) => {
            push_char(&mut res, '@');
            push_text(&mut res, id.as_str());
            push_char(&mut res, ' ');
            assert(res@ =~= with_id + (seq!['@'] + id@ + seq![' ']));
        },
        None => {
            assert(res@ =~= with_id + Seq::<char>::empty());
        },
    }
    assert(res@ =~= indent@ + header_text(header@));
    res
}

/// Prints the body `body` of an entity that is indented by `indent`: the opening brace, the
/// fields, the children, the closing brace.
pub fn print_entity_body(body: &AstEntityBodyNode, indent: &str) -> (text: String)
    ensures
        text@ == body_text(body@, indent@),
    decreases body, 0nat,
{
    let mut inner = String::new();
    push_text(&mut inner, indent);
    push_text(&mut inner, "    ");
    proof {
        reveal_strlit("    ");
        assert(inner@ =~= deeper(indent@));
    }
    let mut res = String::new();
    push_char(&mut res, '{');
    push_char(&mut res, '\n');
    let ghost open = res@;
    assert(open =~= seq!['{', '\n']);
    let ghost lines = field_texts(body@.fields, inner@);
    let mut i: usize = 0;
    assert(lines.take(0) =~= Seq::empty());
    while i < body.fields.len()
        invariant
            i <= body.fields.len(),
            lines == field_texts(body@.fields, inner@),
            lines.len() == body.fields.len(),
            res@ == open + concat(lines.take(i as int)),
        decreases body.fields.len() - i,
    {
        let line = print_field(&body.fields[i], inner.as_str());
        push_text(&mut res, line.as_str());
        proof {
            assert(lines.take(i + 1).drop_last() =~= lines.take(i as int));
            assert(lines.take(i + 1).last() == line@);
            assert(res@ =~= open + concat(lines.take(i + 1)));
        }
        i += 1;
    }
    assert(lines.take(i as int) =~= lines);
    let ghost with_fields = res@;
    let ghost blocks = entity_texts(body@.children, inner@);
    let mut j: usize = 0;
    assert(blocks.take(0) =~= Seq::empty());
    while j < body.children.len()
        invariant
            j <= body.children.len(),
            blocks == entity_texts(body@.children, inner@),
            blocks.len() == body.children.len(),
            res@ == with_fields + concat(blocks.take(j as int)),
        decreases body.children.len() - j,
    {
        let block = print_entity(&body.children[j], inner.as_str());
        push_text(&mut res, block.as_str());
        proof {
            assert(blocks.take(j + 1).drop_last() =~= blocks.take(j as int));
            assert(blocks.take(j + 1).last() == block@);
            assert(res@ =~= with_fields + concat(blocks.take(j + 1)));
        }
        j += 1;
    }
    assert(blocks.take(j as int) =~= blocks);
    push_text(&mut res, indent);
    push_char(&mut res, '}');
    push_char(&mut res, '\n');
    assert(res@ =~= body_text(body@, indent@));
    res
}

/// Prints the field `field` on a line of its own, behind the indentation `indent`.
pub fn print_field(field: &AstFieldNode, indent: &str) -> (text: String)
    ensures
        text@ == field_text(field@, indent@),
{
    let mut res = String::new();
    push_text(&mut res, indent);
    push_text(&mut res, field.identifier.as_str());
    push_char(&mut res, ':');
    push_char(&mut res, ' ');
    let value = print_expr(&field.value);
    push_text(&mut res, value.as_str());
    push_char(&mut res, '\n');
    assert(res@ =~= field_text(field@, indent@));
    res
}

/// Appends the text `o`, if there is one, to `res`.
fn push_optional(res: &mut String, o: &Option<String>)
    ensures
        final(res)@ == old(res)@ + optional(crate::ast::text_of(*o)),
{
    match o {
        Some(s) => {
            push_text(res, s.as_str());
        },
        None => {
            assert(res@ =~= old(res)@ + Seq::<char>::empty());
        },
    }
}

/// Prints the expression `expr`.
pub fn print_expr(expr: &Expr) -> (text: String)
    ensures
        text@ == expr_text(expr@),
    decreases expr,
{
    let mut res = String::new();
    match expr {
        Expr::Operator(node) => {
            let left_side = print_expr(&node.left_side);
            let right_side = print_expr(&node.right_side);
            push_text(&mut res, left_side.as_str());
            push_char(&mut res, ' ');
            push_char(&mut res, node.operator);
            push_char(&mut res, ' ');
            push_text(&mut res, right_side.as_str());
            assert(res@ =~= expr_text(expr@));
        },
        Expr::Identifier(node) => {
            push_text(&mut res, node.value.as_str());
            assert(res@ =~= expr_text(expr@));
        },
        Expr::String(node) => {
            push_char(&mut res, '"');
            push_text(&mut res, node.value.as_str());
            push_char(&mut res, '"');
            assert(res@ =~= expr_text(expr@));
        },
        Expr::UnaryOperator(node) => {
            push_char(&mut res, node.operator);
            let operand = print_expr(&node.expr);
            push_text(&mut res, operand.as_str());
            assert(res@ =~= expr_text(expr@));
        },
        Expr::Number(node) => {
            push_text(&mut res, node.text_rep.as_str());
            assert(res@ =~= expr_text(expr@));
        },
        Expr::Function(node) => {
            push_text(&mut res, node.identifier.as_str());
            push_char(&mut res, '(');
            let ghost open = res@;
            let ghost args = exprs_view(node.argument_list@);
            let ghost parts = expr_texts(args);
            let mut i: usize = 0;
            assert(parts.take(0) =~= Seq::empty());
            while i < node.argument_list.len()
                invariant
                    i <= node.argument_list.len(),
                    expr is Function,
                    expr->Function_0 == node,
                    args == exprs_view(node.argument_list@),
                    parts == expr_texts(args),
                    parts.len() == node.argument_list.len(),
                    res@ == open + join(parts.take(i as int), seq![',', ' ']),
                decreases node.argument_list.len() - i,
            {
                let arg = print_expr(&node.argument_list[i]);
                if i > 0 {
                    push_char(&mut res, ',');
                    push_char(&mut res, ' ');
                }
                push_text(&mut res, arg.as_str());
                proof {
                    assert(parts.take(i + 1).drop_last() =~= parts.take(i as int));
                    assert(parts.take(i + 1).last() == arg@);
                    assert(res@ =~= open + join(parts.take(i + 1), seq![',', ' ']));
                }
                i += 1;
            }
            assert(parts.take(i as int) =~= parts);
            push_char(&mut res, ')');
            proof {
                assert(res@ =~= expr_text(expr@));
            }
        },
        Expr::VPath(node) => {
            push_optional(&mut res, &node.table);
            push_optional(&mut res, &node.sub_table);
            push_char(&mut res, ':');
            push_optional(&mut res, &node.field);
            push_optional(&mut res, &node.sub_field);
            assert(res@ =~= expr_text(expr@));
        },
    }
    res
}

/// The indentation of an entity with `level` entities around it.
pub fn create_indent(level: usize) -> (indent: String)
    ensures
        indent@ == indentation(level as nat),
{
    let mut res = String::new();
    let mut i: usize = 0;
    assert(res@ =~= indentation(0));
    while i < level
        invariant
            i <= level,
            res@ == indentation(i as nat),
        decreases level - i,
    {
        push_char(&mut res, ' ');
        push_char(&mut res, ' ');
        push_char(&mut res, ' ');
        push_char(&mut res, ' ');
        i += 1;
        assert(res@ =~= indentation(i as nat));
    }
    res
}

} // verus!
