//! What holds of every selection.

use vstd::prelude::*;
use crate::ast::{SpecHeader, SpecRoot};
use crate::roundtrip::lexing::lemma_run_exact;
use crate::select::lex::{selector_lex, SelectorToken};
use crate::select::parse::{parse_steps, Step};
use crate::select::{
    all_entities, all_fields, chosen_entities, chosen_fields, compiled_selector, embeds,
    entity_selected, field_selected, selected_entities, selected_fields, step_matches, EntityEntry,
    FieldEntry, SelectorFailure,
};
use crate::text::{after, in_class, is_identifier, CharClass};

verus! {

/// Whether `at` gives, for each of `steps`, the position in `headers` of a header that
/// satisfies it, the positions growing from step to step.
pub open spec fn places(at: Seq<int>, steps: Seq<Step>, headers: Seq<SpecHeader>) -> bool {
    &&& at.len() == steps.len()
    &&& forall|k: int|
        0 <= k < at.len() ==> 0 <= #[trigger] at[k] < headers.len() && step_matches(
            steps[k],
            headers[at[k]],
        )
    &&& forall|k: int, l: int| 0 <= k < l < at.len() ==> #[trigger] at[k] < #[trigger] at[l]
}

/// Steps that are embedded in a chain of headers are satisfied, in order, by headers of
/// the chain, each further in than the one before.
pub proof fn lemma_embedded_steps_have_places(steps: Seq<Step>, headers: Seq<SpecHeader>)
    requires
        embeds(steps, headers),
    ensures
        exists|at: Seq<int>| places(at, steps, headers),
    decreases headers.len(),
{
    if steps.len() == 0 {
        assert(places(Seq::<int>::empty(), steps, headers));
    } else if step_matches(steps.last(), headers.last()) && embeds(
        steps.drop_last(),
        headers.drop_last(),
    ) {
        lemma_embedded_steps_have_places(steps.drop_last(), headers.drop_last());
        let inner = choose|at: Seq<int>| places(at, steps.drop_last(), headers.drop_last());
        let at = inner.push(headers.len() - 1);
        assert forall|k: int| 0 <= k < at.len() implies 0 <= #[trigger] at[k] < headers.len()
            && step_matches(steps[k], headers[at[k]]) by {
            if k < inner.len() {
                assert(at[k] == inner[k]);
                assert(steps[k] == steps.drop_last()[k]);
                assert(headers[inner[k]] == headers.drop_last()[inner[k]]);
            }
        }
        assert forall|k: int, l: int| 0 <= k < l < at.len() implies #[trigger] at[k]
            < #[trigger] at[l] by {
            assert(at[k] == inner[k]);
            if l < inner.len() {
                assert(at[l] == inner[l]);
            }
        }
        assert(places(at, steps, headers));
    } else {
        lemma_embedded_steps_have_places(steps, headers.drop_last());
        let at = choose|at: Seq<int>| places(at, steps, headers.drop_last());
        assert forall|k: int| 0 <= k < at.len() implies 0 <= #[trigger] at[k] < headers.len()
            && step_matches(steps[k], headers[at[k]]) by {
            assert(headers[at[k]] == headers.drop_last()[at[k]]);
        }
        assert(places(at, steps, headers));
    }
}

/// What is chosen among entries is what is left of them, in their order, when those that
/// the selector does not select are taken out.
pub proof fn lemma_chosen_entities_filter(entries: Seq<EntityEntry>, steps: Seq<Step>)
    ensures
        chosen_entities(entries, steps) == entries.filter(
            |entry: EntityEntry| entity_selected(steps, entry),
        ).map_values(|entry: EntityEntry| entry.entity),
    decreases entries.len(),
{
    reveal(Seq::filter);
    let keep = |entry: EntityEntry| entity_selected(steps, entry);
    let value = |entry: EntityEntry| entry.entity;
    if entries.len() == 0 {
        assert(chosen_entities(entries, steps) =~= entries.filter(keep).map_values(value));
    } else {
        lemma_chosen_entities_filter(entries.drop_last(), steps);
        assert(chosen_entities(entries, steps) =~= entries.filter(keep).map_values(value));
    }
}

/// What is chosen among field entries is what is left of them, in their order, when those
/// that the selector does not select are taken out.
pub proof fn lemma_chosen_fields_filter(entries: Seq<FieldEntry>, steps: Seq<Step>)
    ensures
        chosen_fields(entries, steps) == entries.filter(
            |entry: FieldEntry| field_selected(steps, entry),
        ).map_values(|entry: FieldEntry| entry.field),
    decreases entries.len(),
{
    reveal(Seq::filter);
    let keep = |entry: FieldEntry| field_selected(steps, entry);
    let value = |entry: FieldEntry| entry.field;
    if entries.len() == 0 {
        assert(chosen_fields(entries, steps) =~= entries.filter(keep).map_values(value));
    } else {
        lemma_chosen_fields_filter(entries.drop_last(), steps);
        assert(chosen_fields(entries, steps) =~= entries.filter(keep).map_values(value));
    }
}

/// The selected entities are the entities of the document in pre-order, without those that
/// the selector does not select.
pub proof fn lemma_selected_entities_in_pre_order(root: SpecRoot, steps: Seq<Step>)
    ensures
        selected_entities(root, steps) == all_entities(root).filter(
            |entry: EntityEntry| entity_selected(steps, entry),
        ).map_values(|entry: EntityEntry| entry.entity),
{
    lemma_chosen_entities_filter(all_entities(root), steps);
}

/// The selected fields are the fields of the document in pre-order, without those that the
/// selector does not select.
pub proof fn lemma_selected_fields_in_pre_order(root: SpecRoot, steps: Seq<Step>)
    ensures
        selected_fields(root, steps) == all_fields(root).filter(
            |entry: FieldEntry| field_selected(steps, entry),
        ).map_values(|entry: FieldEntry| entry.field),
{
    lemma_chosen_fields_filter(all_fields(root), steps);
}

/// Every chosen entity comes from an entry that the selector selects.
pub proof fn lemma_chosen_entity_origin(entries: Seq<EntityEntry>, steps: Seq<Step>, i: int)
    requires
        0 <= i < chosen_entities(entries, steps).len(),
    ensures
        exists|j: int|
            0 <= j < entries.len() && (#[trigger] entries[j]).entity == chosen_entities(
                entries,
                steps,
            )[i] && entity_selected(steps, entries[j]),
    decreases entries.len(),
{
    let before = chosen_entities(entries.drop_last(), steps);
    if i < before.len() {
        lemma_chosen_entity_origin(entries.drop_last(), steps, i);
        let j = choose|j: int|
            0 <= j < entries.drop_last().len() && (#[trigger] entries.drop_last()[j]).entity
                == before[i] && entity_selected(steps, entries.drop_last()[j]);
        assert(entries[j] == entries.drop_last()[j]);
    } else {
        assert(entries[entries.len() - 1] == entries.last());
    }
}

/// Each selected entity is an entity of the document whose header satisfies the last step
/// of the selector, and the entities around it hold, from the outermost inwards, an entity
/// for each step before the last whose header satisfies that step.
pub proof fn lemma_selected_entity_satisfies_steps(root: SpecRoot, steps: Seq<Step>, i: int)
    requires
        0 <= i < selected_entities(root, steps).len(),
    ensures
        steps.len() > 0,
        step_matches(steps.last(), selected_entities(root, steps)[i].header),
        exists|j: int, at: Seq<int>|
            0 <= j < all_entities(root).len() && (#[trigger] all_entities(root)[j]).entity
                == selected_entities(root, steps)[i] && #[trigger] places(
                at,
                steps.drop_last(),
                all_entities(root)[j].ancestors,
            ),
{
    let entries = all_entities(root);
    lemma_chosen_entity_origin(entries, steps, i);
    let j = choose|j: int|
        0 <= j < entries.len() && (#[trigger] entries[j]).entity == chosen_entities(
            entries,
            steps,
        )[i] && entity_selected(steps, entries[j]);
    lemma_embedded_steps_have_places(steps.drop_last(), entries[j].ancestors);
    let at = choose|at: Seq<int>| places(at, steps.drop_last(), entries[j].ancestors);
    assert(places(at, steps.drop_last(), all_entities(root)[j].ancestors));
}

/// The selector that names only a field.
pub open spec fn field_named(name: Seq<char>) -> Seq<Step> {
    seq![Step { main_type: None, sub_type: None, identifier: Some(name) }]
}

/// A selector that names only a field selects exactly the fields of that name, wherever
/// they stand in the document, in pre-order.
pub proof fn lemma_select_field_by_name(root: SpecRoot, name: Seq<char>)
    ensures
        selected_fields(root, field_named(name)) == all_fields(root).filter(
            |entry: FieldEntry| entry.field.identifier == name,
        ).map_values(|entry: FieldEntry| entry.field),
{
    let steps = field_named(name);
    lemma_selected_fields_in_pre_order(root, steps);
    assert(steps.drop_last() =~= Seq::<Step>::empty());
    assert forall|entry: FieldEntry|
        field_selected(steps, entry) == (entry.field.identifier == name) by {
        assert(embeds(Seq::<Step>::empty(), entry.ancestors));
    }
    assert((|entry: FieldEntry| field_selected(steps, entry)) == (|entry: FieldEntry|
        entry.field.identifier == name)) by {
        assert((|entry: FieldEntry| field_selected(steps, entry)) =~= (|entry: FieldEntry|
            entry.field.identifier == name));
    }
}

/// The selector text `.name` spells the selector that names only the field `name`.
pub proof fn lemma_field_selector_text(name: Seq<char>)
    requires
        is_identifier(name),
    ensures
        compiled_selector(seq!['.'] + name) == Ok::<Seq<Step>, SelectorFailure>(
            field_named(name),
        ),
{
    let s = seq!['.'] + name;
    let none = Seq::<char>::empty();
    reveal_with_fuel(selector_lex, 3);
    assert(s[0] == '.');
    assert(after(s, 1) =~= name);
    assert forall|i: int| 0 <= i < name.skip(1).len() implies in_class(
        CharClass::Identifier,
        #[trigger] name.skip(1)[i],
    ) by {
        assert(name.skip(1)[i] == name[i + 1]);
    }
    lemma_run_exact(name.skip(1), none, CharClass::Identifier);
    assert(name.skip(1) + none =~= name.skip(1));
    assert(name.take(name.len() as int) =~= name);
    assert(after(name, name.len()) =~= none);
    let tokens = seq![SelectorToken::Dot, SelectorToken::Identifier(name)];
    assert(seq![SelectorToken::Dot] + (seq![SelectorToken::Identifier(name)] + Seq::<
        SelectorToken,
    >::empty()) =~= tokens);
    assert(selector_lex(s) == Ok::<Seq<SelectorToken>, crate::lex::LexError>(tokens));
    assert(tokens[0] == SelectorToken::Dot);
    assert(tokens[1] == SelectorToken::Identifier(name));
    assert(parse_steps(tokens) == Ok::<Seq<Step>, crate::select::parse::SelectorError>(
        field_named(name),
    ));
}

/// The selector text `.name` selects exactly the fields named `name`, wherever they stand
/// in the document, in pre-order.
pub proof fn lemma_select_field_by_text(root: SpecRoot, name: Seq<char>)
    requires
        is_identifier(name),
    ensures
        compiled_selector(seq!['.'] + name) matches Ok(steps) && selected_fields(root, steps)
            == all_fields(root).filter(
            |entry: FieldEntry| entry.field.identifier == name,
        ).map_values(|entry: FieldEntry| entry.field),
{
    lemma_field_selector_text(name);
    lemma_select_field_by_name(root, name);
}

} // verus!
