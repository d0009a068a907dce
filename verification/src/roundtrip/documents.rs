//! The parser reads the canonical tokens of a document as a document with the same printed
//! text.

use vstd::prelude::*;
use crate::ast::{SpecBody, SpecEntity, SpecField, SpecHeader, SpecRoot};
use crate::canon::{
    each_entity_tokens, each_field_tokens, entity_tokens, expr_tokens, field_tokens, header_tokens,
    root_tokens,
};
use crate::grammar::{
    lemma_parse_body_items, lemma_parse_entities, lemma_parse_entity_body, parse_body_items,
    parse_entities, parse_entity, parse_entity_body, parse_entity_header, parse_expr, parse_field,
    parse_root, SyntaxError,
};
use crate::lex::Token;
use crate::print::{entity_text, entity_texts, expr_text, field_text, field_texts, root_text};
use crate::roundtrip::expressions::lemma_expr_reparses;
use crate::roundtrip::lexing::lemma_assoc;
use crate::text::{after, concat};

verus! {

/// The sequences of `parts` from the one at `k` on, one after the other.
pub open spec fn concat_from<T>(parts: Seq<Seq<T>>, k: nat) -> Seq<T>
    decreases parts.len() - k,
{
    if k >= parts.len() {
        Seq::empty()
    } else {
        parts[k as int] + concat_from(parts, k + 1)
    }
}

/// All of `parts` one after the other are the first `k` of them, then the others.
pub proof fn lemma_concat_from<T>(parts: Seq<Seq<T>>, k: nat)
    requires
        k <= parts.len(),
    ensures
        concat(parts) == concat(parts.take(k as int)) + concat_from(parts, k),
    decreases parts.len() - k,
{
    if k == parts.len() {
        assert(parts.take(k as int) =~= parts);
        assert(concat(parts) + concat_from(parts, k) =~= concat(parts));
    } else {
        lemma_concat_from(parts, k + 1);
        assert(parts.take(k as int + 1).drop_last() =~= parts.take(k as int));
        assert(parts.take(k as int + 1).last() == parts[k as int]);
        lemma_assoc(concat(parts.take(k as int)), parts[k as int], concat_from(parts, k + 1));
    }
}

/// All of `parts` one after the other, counted from the first.
pub proof fn lemma_concat_from_start<T>(parts: Seq<Seq<T>>)
    ensures
        concat(parts) == concat_from(parts, 0),
{
    lemma_concat_from(parts, 0);
    assert(parts.take(0) =~= Seq::<Seq<T>>::empty());
    assert(concat(parts.take(0)) + concat_from(parts, 0) =~= concat_from(parts, 0));
}

/// Whether the field `again` has the name of `field`, a value with the same printed text,
/// and is well formed.
pub open spec fn field_alike(field: SpecField, again: SpecField) -> bool {
    &&& again.identifier == field.identifier
    &&& expr_text(again.value) == expr_text(field.value)
    &&& again.well_formed()
}

/// Whether the entity `again` is well formed and printed like `e` at every indentation.
pub open spec fn entity_alike(e: SpecEntity, again: SpecEntity) -> bool {
    &&& again.well_formed()
    &&& forall|indent: Seq<char>| #[trigger] entity_text(again, indent) == entity_text(e, indent)
}

/// Whether the first `k` of `fields` are read back in `acc`.
pub open spec fn fields_read(fields: Seq<SpecField>, acc: Seq<SpecField>, k: nat) -> bool {
    &&& acc.len() == k
    &&& k <= fields.len()
    &&& forall|i: int| 0 <= i < k ==> field_alike(fields[i], #[trigger] acc[i])
}

/// Whether the first `k` of `entities` are read back in `acc`.
pub open spec fn entities_read(entities: Seq<SpecEntity>, acc: Seq<SpecEntity>, k: nat) -> bool {
    &&& acc.len() == k
    &&& k <= entities.len()
    &&& forall|i: int| 0 <= i < k ==> entity_alike(entities[i], #[trigger] acc[i])
}

/// Whether the parser reads the tokens of `e` before `z` as an entity that is printed like
/// `e`.
pub open spec fn entity_reparses(e: SpecEntity, z: Seq<Token>) -> bool {
    parse_entity(entity_tokens(e) + z) matches Ok((again, n)) && n == entity_tokens(e).len()
        && entity_alike(e, again)
}

/// The parser reads the tokens of a well-formed field back as a field with the same name
/// and a value with the same printed text.
pub proof fn lemma_field_reparses(field: SpecField, z: Seq<Token>)
    requires
        field.well_formed(),
    ensures
        parse_field(field_tokens(field) + z) matches Ok((again, n)) && n == field_tokens(
            field,
        ).len() && field_alike(field, again),
        (field_tokens(field) + z)[0] is Identifier,
        (field_tokens(field) + z)[1] is Colon,
{
    let value = expr_tokens(field.value);
    let start = seq![Token::Identifier(field.identifier), Token::Colon];
    let end = seq![Token::EOL] + z;
    let all = field_tokens(field) + z;
    lemma_assoc(start + value, seq![Token::EOL], z);
    lemma_assoc(start, value, end);
    assert(all == start + (value + end));
    assert(all[0] == Token::Identifier(field.identifier));
    assert(all[1] == Token::Colon);
    assert(after(all, 2) =~= value + end);
    lemma_expr_reparses(field.value, end);
    let n = parse_expr(value + end)->Ok_0.1;
    assert(all[2 + n as int] == Token::EOL);
}

/// The tokens of a header, before an opening brace, start with the main type, and what
/// follows the main type is no colon.
pub proof fn lemma_header_front(header: SpecHeader, z: Seq<Token>)
    requires
        z.len() > 0,
        z[0] is OpenBracket,
    ensures
        (header_tokens(header) + z)[0] is Identifier,
        !((header_tokens(header) + z)[1] is Colon),
        header_tokens(header).len() >= 1,
{
    let all = header_tokens(header) + z;
    assert(all[0] == Token::Identifier(header.main_type));
    match header.sub_type {
        Some(sub_type) => {
            assert(all[1] == Token::Identifier(sub_type));
        },
        None => match header.identifier {
            Some(identifier) => {
                assert(all[1] == Token::Hash);
            },
            None => match header.reference {
                Some(reference) => {
                    assert(all[1] == Token::Reference(reference));
                },
                None => {
                    assert(all[1] == z[0]);
                },
            },
        },
    }
}

/// The parser reads the tokens of a header, before an opening brace, back as the header.
pub proof fn lemma_header_reparses(header: SpecHeader, z: Seq<Token>)
    requires
        z.len() > 0,
        z[0] is OpenBracket,
    ensures
        parse_entity_header(header_tokens(header) + z) == Ok::<(SpecHeader, nat), SyntaxError>(
            (header, header_tokens(header).len()),
        ),
{
    let all = header_tokens(header) + z;
    let main = Token::Identifier(header.main_type);
    match (header.sub_type, header.identifier, header.reference) {
        (Some(s), Some(i), Some(r)) => {
            assert(header_tokens(header) =~= seq![
                main,
                Token::Identifier(s),
                Token::Hash,
                Token::Identifier(i),
                Token::Reference(r),
            ]);
            assert(all[0] == main && all[1] == Token::Identifier(s) && all[2] == Token::Hash
                && all[3] == Token::Identifier(i) && all[4] == Token::Reference(r));
        },
        (Some(s), Some(i), None) => {
            assert(header_tokens(header) =~= seq![
                main,
                Token::Identifier(s),
                Token::Hash,
                Token::Identifier(i),
            ]);
            assert(all[0] == main && all[1] == Token::Identifier(s) && all[2] == Token::Hash
                && all[3] == Token::Identifier(i) && all[4] == z[0]);
        },
        (Some(s), None, Some(r)) => {
            assert(header_tokens(header) =~= seq![
                main,
                Token::Identifier(s),
                Token::Reference(r),
            ]);
            assert(all[0] == main && all[1] == Token::Identifier(s) && all[2]
                == Token::Reference(r));
        },
        (Some(s), None, None) => {
            assert(header_tokens(header) =~= seq![main, Token::Identifier(s)]);
            assert(all[0] == main && all[1] == Token::Identifier(s) && all[2] == z[0]);
        },
        (None, Some(i), Some(r)) => {
            assert(header_tokens(header) =~= seq![
                main,
                Token::Hash,
                Token::Identifier(i),
                Token::Reference(r),
            ]);
            assert(all[0] == main && all[1] == Token::Hash && all[2] == Token::Identifier(i)
                && all[3] == Token::Reference(r));
        },
        (None, Some(i), None) => {
            assert(header_tokens(header) =~= seq![main, Token::Hash, Token::Identifier(i)]);
            assert(all[0] == main && all[1] == Token::Hash && all[2] == Token::Identifier(i)
                && all[3] == z[0]);
        },
        (None, None, Some(r)) => {
            assert(header_tokens(header) =~= seq![main, Token::Reference(r)]);
            assert(all[0] == main && all[1] == Token::Reference(r));
        },
        (None, None, None) => {
            assert(header_tokens(header) =~= seq![main]);
            assert(all[0] == main && all[1] == z[0]);
        },
    }
}

/// The tokens of an entity start with a main type, and what follows the main type is no
/// colon.
pub proof fn lemma_entity_front(e: SpecEntity, z: Seq<Token>)
    ensures
        (entity_tokens(e) + z).len() >= 2,
        (entity_tokens(e) + z)[0] is Identifier,
        !((entity_tokens(e) + z)[1] is Colon),
{
    let head = header_tokens(e.header);
    let open = seq![Token::OpenBracket, Token::EOL];
    let fields = concat(each_field_tokens(e.body.fields));
    let children = concat(each_entity_tokens(e.body.children));
    let close = seq![Token::CloseBracket, Token::EOL];
    let behind = open + (fields + (children + (close + z)));
    lemma_assoc(head + open + fields + children, close, z);
    lemma_assoc(head + open + fields, children, close + z);
    lemma_assoc(head + open, fields, children + (close + z));
    lemma_assoc(head, open, fields + (children + (close + z)));
    assert(behind[0] == Token::OpenBracket);
    lemma_header_front(e.header, behind);
}

/// The tokens of an entity before `z` are its header, the opening of its body, its fields,
/// its children and the closing of its body before `z`.
pub proof fn lemma_entity_tokens_split(e: SpecEntity, z: Seq<Token>)
    ensures
        entity_tokens(e) + z == header_tokens(e.header) + (seq![Token::OpenBracket, Token::EOL]
            + (concat_from(each_field_tokens(e.body.fields), 0) + (concat_from(
            each_entity_tokens(e.body.children),
            0,
        ) + (seq![Token::CloseBracket, Token::EOL] + z)))),
        entity_tokens(e).len() == header_tokens(e.header).len() + 2 + concat_from(
            each_field_tokens(e.body.fields),
            0,
        ).len() + concat_from(each_entity_tokens(e.body.children), 0).len() + 2,
{
    let head = header_tokens(e.header);
    let open = seq![Token::OpenBracket, Token::EOL];
    let fields = concat(each_field_tokens(e.body.fields));
    let children = concat(each_entity_tokens(e.body.children));
    let close = seq![Token::CloseBracket, Token::EOL];
    lemma_concat_from_start(each_field_tokens(e.body.fields));
    lemma_concat_from_start(each_entity_tokens(e.body.children));
    lemma_assoc(head + open + fields + children, close, z);
    lemma_assoc(head + open + fields, children, close + z);
    lemma_assoc(head + open, fields, children + (close + z));
    lemma_assoc(head, open, fields + (children + (close + z)));
}

/// The parser reads the tokens of a body with well-formed fields and children back as a
/// body whose fields and children are printed like them.
pub proof fn lemma_body_reparses(fields: Seq<SpecField>, children: Seq<SpecEntity>, z: Seq<Token>)
    requires
        forall|i: int| 0 <= i < fields.len() ==> (#[trigger] fields[i]).well_formed(),
        forall|i: int| 0 <= i < children.len() ==> (#[trigger] children[i]).well_formed(),
    ensures
        parse_entity_body(
            seq![Token::OpenBracket, Token::EOL] + (concat_from(each_field_tokens(fields), 0) + (
            concat_from(each_entity_tokens(children), 0) + (seq![
                Token::CloseBracket,
                Token::EOL,
            ] + z))),
        ) matches Ok((body, n)) && n == 2 + concat_from(each_field_tokens(fields), 0).len()
            + concat_from(each_entity_tokens(children), 0).len() + 2 && fields_read(
            fields,
            body.fields,
            fields.len(),
        ) && entities_read(children, body.children, children.len()),
    decreases children, 2nat, 0nat,
{
    let open = seq![Token::OpenBracket, Token::EOL];
    let items = concat_from(each_field_tokens(fields), 0) + (concat_from(
        each_entity_tokens(children),
        0,
    ) + (seq![Token::CloseBracket, Token::EOL] + z));
    let body = open + items;
    assert(body[0] == Token::OpenBracket);
    assert(body[1] == Token::EOL);
    lemma_parse_entity_body(body);
    assert(after(body, 2) =~= items);
    assert(fields_read(fields, Seq::empty(), 0));
    lemma_items_fields(fields, 0, Seq::empty(), children, z);
}

/// An entity whose fields and children are printed like those of `e`, under the header of
/// `e`, is printed like `e`.
pub proof fn lemma_entity_alike(e: SpecEntity, body: SpecBody)
    requires
        e.well_formed(),
        fields_read(e.body.fields, body.fields, e.body.fields.len()),
        entities_read(e.body.children, body.children, e.body.children.len()),
    ensures
        entity_alike(e, SpecEntity { header: e.header, body }),
{
    let again = SpecEntity { header: e.header, body };
    assert forall|indent: Seq<char>| #[trigger]
        entity_text(again, indent) == entity_text(e, indent) by {
        lemma_same_lines(e.body, body, crate::print::deeper(indent));
    }
    assert forall|i: int| 0 <= i < body.fields.len() implies (
    #[trigger] body.fields[i]).well_formed() by {
        assert(field_alike(e.body.fields[i], body.fields[i]));
    }
    assert forall|i: int| 0 <= i < body.children.len() implies (
    #[trigger] body.children[i]).well_formed() by {
        assert(entity_alike(e.body.children[i], body.children[i]));
    }
}

/// The parser reads the tokens of a well-formed entity back as an entity that is printed
/// like it, and reads nothing more.
pub proof fn lemma_entity_reparses(e: SpecEntity, z: Seq<Token>)
    requires
        e.well_formed(),
    ensures
        entity_reparses(e, z),
    decreases e, 0nat, 0nat,
{
    let head = header_tokens(e.header);
    let body = seq![Token::OpenBracket, Token::EOL] + (concat_from(
        each_field_tokens(e.body.fields),
        0,
    ) + (concat_from(each_entity_tokens(e.body.children), 0) + (seq![
        Token::CloseBracket,
        Token::EOL,
    ] + z)));
    let all = entity_tokens(e) + z;
    lemma_entity_tokens_split(e, z);
    assert(body[0] == Token::OpenBracket);
    lemma_header_reparses(e.header, body);
    lemma_header_front(e.header, body);
    assert(after(all, head.len()) =~= body);
    lemma_body_reparses(e.body.fields, e.body.children, z);
    let again_body = parse_entity_body(body)->Ok_0.0;
    lemma_entity_alike(e, again_body);
}

/// Bodies whose fields and children are printed alike have the same lines.
pub proof fn lemma_same_lines(body: SpecBody, again: SpecBody, indent: Seq<char>)
    requires
        fields_read(body.fields, again.fields, body.fields.len()),
        entities_read(body.children, again.children, body.children.len()),
    ensures
        field_texts(again.fields, indent) == field_texts(body.fields, indent),
        entity_texts(again.children, indent) == entity_texts(body.children, indent),
{
    assert forall|i: int| 0 <= i < body.fields.len() implies field_text(again.fields[i], indent)
        == field_text(body.fields[i], indent) by {
        assert(field_alike(body.fields[i], again.fields[i]));
    }
    assert forall|i: int| 0 <= i < body.children.len() implies entity_text(
        again.children[i],
        indent,
    ) == entity_text(body.children[i], indent) by {
        assert(entity_alike(body.children[i], again.children[i]));
    }
    assert(field_texts(again.fields, indent) =~= field_texts(body.fields, indent));
    assert(entity_texts(again.children, indent) =~= entity_texts(body.children, indent));
}

/// The parser reads the lines of the fields of a body from the one at `k` on, then the
/// children and the closing brace, behind the fields that it has read.
pub proof fn lemma_items_fields(
    fields: Seq<SpecField>,
    k: nat,
    acc: Seq<SpecField>,
    children: Seq<SpecEntity>,
    z: Seq<Token>,
)
    requires
        forall|i: int| 0 <= i < fields.len() ==> (#[trigger] fields[i]).well_formed(),
        forall|i: int| 0 <= i < children.len() ==> (#[trigger] children[i]).well_formed(),
        fields_read(fields, acc, k),
    ensures
        parse_body_items(
            acc,
            Seq::empty(),
            concat_from(each_field_tokens(fields), k) + (concat_from(
                each_entity_tokens(children),
                0,
            ) + (seq![Token::CloseBracket, Token::EOL] + z)),
        ) matches Ok((body, n)) && n == concat_from(each_field_tokens(fields), k).len()
            + concat_from(each_entity_tokens(children), 0).len() + 2 && fields_read(
            fields,
            body.fields,
            fields.len(),
        ) && entities_read(children, body.children, children.len()),
    decreases children, 1nat, fields.len() - k,
{
    let parts = each_field_tokens(fields);
    let behind = concat_from(each_entity_tokens(children), 0) + (seq![
        Token::CloseBracket,
        Token::EOL,
    ] + z);
    let all = concat_from(parts, k) + behind;
    if k >= fields.len() {
        assert(all =~= behind);
        assert(entities_read(children, Seq::empty(), 0));
        lemma_items_children(children, 0, acc, Seq::empty(), z);
    } else {
        let field = fields[k as int];
        let others = concat_from(parts, k + 1) + behind;
        lemma_assoc(field_tokens(field), concat_from(parts, k + 1), behind);
        assert(all == field_tokens(field) + others);
        lemma_field_reparses(field, others);
        lemma_parse_body_items(acc, Seq::empty(), all);
        let again = parse_field(all)->Ok_0.0;
        let n = parse_field(all)->Ok_0.1;
        assert(after(all, n) =~= others);
        let more = acc.push(again);
        assert forall|i: int| 0 <= i < k + 1 implies field_alike(fields[i], #[trigger] more[i]) by {
            if i < k {
                assert(more[i] == acc[i]);
            }
        }
        lemma_items_fields(fields, k + 1, more, children, z);
    }
}

/// The parser reads the lines of the children of a body from the one at `k` on, then the
/// closing brace, behind the fields and the children that it has read.
pub proof fn lemma_items_children(
    children: Seq<SpecEntity>,
    k: nat,
    fields: Seq<SpecField>,
    acc: Seq<SpecEntity>,
    z: Seq<Token>,
)
    requires
        forall|i: int| 0 <= i < children.len() ==> (#[trigger] children[i]).well_formed(),
        entities_read(children, acc, k),
    ensures
        parse_body_items(
            fields,
            acc,
            concat_from(each_entity_tokens(children), k) + (seq![
                Token::CloseBracket,
                Token::EOL,
            ] + z),
        ) matches Ok((body, n)) && n == concat_from(each_entity_tokens(children), k).len() + 2
            && body.fields == fields && entities_read(children, body.children, children.len()),
    decreases children, 0nat, children.len() - k,
{
    let parts = each_entity_tokens(children);
    let close = seq![Token::CloseBracket, Token::EOL] + z;
    let all = concat_from(parts, k) + close;
    lemma_parse_body_items(fields, acc, all);
    if k >= children.len() {
        assert(all =~= close);
        assert(all[0] == Token::CloseBracket);
        assert(all[1] == Token::EOL);
    } else {
        let child = children[k as int];
        let others = concat_from(parts, k + 1) + close;
        lemma_assoc(entity_tokens(child), concat_from(parts, k + 1), close);
        assert(all == entity_tokens(child) + others);
        lemma_entity_front(child, others);
        lemma_entity_reparses(child, others);
        let again = parse_entity(all)->Ok_0.0;
        let n = parse_entity(all)->Ok_0.1;
        assert(after(all, n) =~= others);
        let more = acc.push(again);
        assert forall|i: int| 0 <= i < k + 1 implies entity_alike(
            children[i],
            #[trigger] more[i],
        ) by {
            if i < k {
                assert(more[i] == acc[i]);
            }
        }
        lemma_items_children(children, k + 1, fields, more, z);
    }
}

/// The parser reads the lines of the entities of a document from the one at `k` on, behind
/// the entities that it has read.
pub proof fn lemma_entities_reparse(entities: Seq<SpecEntity>, k: nat, acc: Seq<SpecEntity>)
    requires
        forall|i: int| 0 <= i < entities.len() ==> (#[trigger] entities[i]).well_formed(),
        entities_read(entities, acc, k),
    ensures
        parse_entities(acc, concat_from(each_entity_tokens(entities), k)) matches Ok(root)
            && entities_read(entities, root.children, entities.len()),
    decreases entities.len() - k,
{
    let parts = each_entity_tokens(entities);
    let all = concat_from(parts, k);
    lemma_parse_entities(acc, all);
    if k < entities.len() {
        let e = entities[k as int];
        let others = concat_from(parts, k + 1);
        lemma_entity_front(e, others);
        lemma_entity_reparses(e, others);
        let again = parse_entity(all)->Ok_0.0;
        let n = parse_entity(all)->Ok_0.1;
        assert(after(all, n) =~= others);
        let more = acc.push(again);
        assert forall|i: int| 0 <= i < k + 1 implies entity_alike(
            entities[i],
            #[trigger] more[i],
        ) by {
            if i < k {
                assert(more[i] == acc[i]);
            }
        }
        lemma_entities_reparse(entities, k + 1, more);
    }
}

/// The parser reads the canonical tokens of a well-formed document as a well-formed
/// document with the same printed text.
pub proof fn lemma_root_reparses(root: SpecRoot)
    requires
        root.well_formed(),
    ensures
        parse_root(root_tokens(root)) matches Ok(again) && root_text(again) == root_text(root)
            && again.well_formed(),
{
    lemma_concat_from_start(each_entity_tokens(root.children));
    assert(entities_read(root.children, Seq::empty(), 0));
    lemma_entities_reparse(root.children, 0, Seq::empty());
    let again = parse_root(root_tokens(root))->Ok_0;
    let none = Seq::<char>::empty();
    assert forall|i: int| 0 <= i < root.children.len() implies entity_text(
        again.children[i],
        none,
    ) == entity_text(root.children[i], none) && (#[trigger] again.children[i]).well_formed() by {
        assert(entity_alike(root.children[i], again.children[i]));
    }
    assert(entity_texts(again.children, none) =~= entity_texts(root.children, none));
}

} // verus!
