//! The selector engine: queries over a syntax tree.
//!
//! A selector is a chain of steps, `step > step > ...`. An entity is selected if its header
//! satisfies the last step and the entities around it hold, from the outermost inwards, one
//! entity for each step before the last, each satisfying its step: `>` reads "somewhere
//! inside", not "directly inside". A field is selected if its name is the identifier of the
//! last step and the entities around it, its own entity among them, satisfy the steps before
//! the last in the same way. A step without parts is satisfied by every entity. The selected
//! nodes come in the order of a pre-order walk of the tree, each once.

use vstd::prelude::*;
use crate::ast::{
    entities_view, fields_view, AstEntityHeaderNode, AstEntityNode, AstFieldNode, AstRootNode,
    SpecEntity, SpecField, SpecHeader, SpecRoot,
};
use crate::lex::LexError;
use crate::select::lex::{lex_selector, selector_lex};
use crate::select::parse::{parse_steps, Selector, SelectorError, SelectorParser, Step};

pub mod laws;
pub mod lex;
pub mod parse;

verus! {

/// Whether a header's part `actual` is what the step's part `wanted` asks for: anything if
/// the step has no such part, else that text and not its absence.
pub open spec fn part_matches(wanted: Option<Seq<char>>, actual: Option<Seq<char>>) -> bool {
    match wanted {
        Some(text) => actual == Some(text),
        None => true,
    }
}

/// Whether the header `header` satisfies the step `step`: each part of the step that is
/// there equals the header's.
pub open spec fn step_matches(step: Step, header: SpecHeader) -> bool {
    &&& part_matches(step.main_type, Some(header.main_type))
    &&& part_matches(step.sub_type, header.sub_type)
    &&& part_matches(step.identifier, header.identifier)
}

/// Whether `headers` holds, in order, one header for each of `steps` that satisfies it.
pub open spec fn embeds(steps: Seq<Step>, headers: Seq<SpecHeader>) -> bool
    decreases headers.len(),
{
    if steps.len() == 0 {
        true
    } else if headers.len() == 0 {
        false
    } else {
        ||| step_matches(steps.last(), headers.last()) && embeds(
            steps.drop_last(),
            headers.drop_last(),
        )
        ||| embeds(steps, headers.drop_last())
    }
}

/// An entity of a tree, with the headers of the entities around it, the outermost first.
pub struct EntityEntry {
    pub ancestors: Seq<SpecHeader>,
    pub entity: SpecEntity,
}

/// A field of a tree, with the headers of the entities around it, the outermost first and
/// the field's own entity last.
pub struct FieldEntry {
    pub ancestors: Seq<SpecHeader>,
    pub field: SpecField,
}

/// The entity `e` and the entities inside it, in pre-order: `e`, then what each of its
/// children holds, child by child.
pub open spec fn entity_entries(e: SpecEntity, ancestors: Seq<SpecHeader>) -> Seq<EntityEntry>
    decreases e, 0nat,
{
    seq![EntityEntry { ancestors, entity: e }] + entity_entries_among(
        e.body.children,
        e.body.children.len(),
        ancestors.push(e.header),
    )
}

/// The pre-order entries of the first `n` of `entities`, one entity after the other.
pub open spec fn entity_entries_among(
    entities: Seq<SpecEntity>,
    n: nat,
    ancestors: Seq<SpecHeader>,
) -> Seq<EntityEntry>
    decreases entities, n,
{
    if n == 0 || n > entities.len() {
        Seq::empty()
    } else {
        entity_entries_among(entities, (n - 1) as nat, ancestors) + entity_entries(
            entities[n - 1],
            ancestors,
        )
    }
}

/// The fields `fields` of an entity, in order, with the headers around them.
pub open spec fn own_fields(fields: Seq<SpecField>, ancestors: Seq<SpecHeader>) -> Seq<
    FieldEntry,
> {
    Seq::new(fields.len(), |i: int| FieldEntry { ancestors, field: fields[i] })
}

/// The fields of `e` and of the entities inside it, in pre-order: the fields of `e`, then
/// what each of its children holds, child by child.
pub open spec fn field_entries(e: SpecEntity, ancestors: Seq<SpecHeader>) -> Seq<FieldEntry>
    decreases e, 0nat,
{
    own_fields(e.body.fields, ancestors.push(e.header)) + field_entries_among(
        e.body.children,
        e.body.children.len(),
        ancestors.push(e.header),
    )
}

/// The pre-order field entries of the first `n` of `entities`, one entity after the other.
pub open spec fn field_entries_among(
    entities: Seq<SpecEntity>,
    n: nat,
    ancestors: Seq<SpecHeader>,
) -> Seq<FieldEntry>
    decreases entities, n,
{
    if n == 0 || n > entities.len() {
        Seq::empty()
    } else {
        field_entries_among(entities, (n - 1) as nat, ancestors) + field_entries(
            entities[n - 1],
            ancestors,
        )
    }
}

/// Whether the selector `steps` selects the entity of `entry`.
pub open spec fn entity_selected(steps: Seq<Step>, entry: EntityEntry) -> bool {
    &&& steps.len() > 0
    &&& step_matches(steps.last(), entry.entity.header)
    &&& embeds(steps.drop_last(), entry.ancestors)
}

/// Whether the selector `steps` selects the field of `entry`.
pub open spec fn field_selected(steps: Seq<Step>, entry: FieldEntry) -> bool {
    &&& steps.len() > 0
    &&& steps.last().identifier == Some(entry.field.identifier)
    &&& embeds(steps.drop_last(), entry.ancestors)
}

/// The entities of those of `entries` that `steps` selects, in the order of `entries`.
pub open spec fn chosen_entities(entries: Seq<EntityEntry>, steps: Seq<Step>) -> Seq<SpecEntity>
    decreases entries.len(),
{
    if entries.len() == 0 {
        Seq::empty()
    } else if entity_selected(steps, entries.last()) {
        chosen_entities(entries.drop_last(), steps).push(entries.last().entity)
    } else {
        chosen_entities(entries.drop_last(), steps)
    }
}

/// The fields of those of `entries` that `steps` selects, in the order of `entries`.
pub open spec fn chosen_fields(entries: Seq<FieldEntry>, steps: Seq<Step>) -> Seq<SpecField>
    decreases entries.len(),
{
    if entries.len() == 0 {
        Seq::empty()
    } else if field_selected(steps, entries.last()) {
        chosen_fields(entries.drop_last(), steps).push(entries.last().field)
    } else {
        chosen_fields(entries.drop_last(), steps)
    }
}

/// All entities of the document `root`, in pre-order.
pub open spec fn all_entities(root: SpecRoot) -> Seq<EntityEntry> {
    entity_entries_among(root.children, root.children.len(), Seq::empty())
}

/// All fields of the document `root`, in pre-order.
pub open spec fn all_fields(root: SpecRoot) -> Seq<FieldEntry> {
    field_entries_among(root.children, root.children.len(), Seq::empty())
}

/// The entities of `root` that `steps` selects, in pre-order.
pub open spec fn selected_entities(root: SpecRoot, steps: Seq<Step>) -> Seq<SpecEntity> {
    chosen_entities(all_entities(root), steps)
}

/// The fields of `root` that `steps` selects, in pre-order.
pub open spec fn selected_fields(root: SpecRoot, steps: Seq<Step>) -> Seq<SpecField> {
    chosen_fields(all_fields(root), steps)
}

/// Why a text is no selector.
pub enum SelectorFailure {
    Lexical(LexError),
    Syntax(SelectorError),
}

impl SelectorFailure {
    /// The message that the selecting functions report for this error.
    pub open spec fn message(self) -> Seq<char> {
        match self {
            SelectorFailure::Lexical(e) => e.message(),
            SelectorFailure::Syntax(e) => e.message(),
        }
    }
}

/// The steps that the selector text `s` spells, or the first error in it.
pub open spec fn compiled_selector(s: Seq<char>) -> Result<Seq<Step>, SelectorFailure> {
    match selector_lex(s) {
        Ok(tokens) => match parse_steps(tokens) {
            Ok(steps) => Ok(steps),
            Err(e) => Err(SelectorFailure::Syntax(e)),
        },
        Err(e) => Err(SelectorFailure::Lexical(e)),
    }
}

/// How many of `steps` a walk from the outermost of `headers` inwards has satisfied, each
/// step by the first header that can take it.
pub open spec fn greedy(steps: Seq<Step>, headers: Seq<SpecHeader>) -> nat
    decreases headers.len(),
{
    if headers.len() == 0 {
        0
    } else {
        let before = greedy(steps, headers.drop_last());
        if before < steps.len() && step_matches(steps[before as int], headers.last()) {
            before + 1
        } else {
            before
        }
    }
}

/// Taking each step at the first header that satisfies it finds an embedding whenever there
/// is one: the first `k` steps are embedded exactly when the walk has satisfied `k` or more.
pub proof fn lemma_greedy(steps: Seq<Step>, headers: Seq<SpecHeader>, k: nat)
    requires
        k <= steps.len(),
    ensures
        greedy(steps, headers) <= steps.len(),
        embeds(steps.take(k as int), headers) == (k <= greedy(steps, headers)),
    decreases headers.len(),
{
    if headers.len() > 0 {
        lemma_greedy(steps, headers.drop_last(), k);
        if k > 0 {
            lemma_greedy(steps, headers.drop_last(), (k - 1) as nat);
            assert(steps.take(k as int).drop_last() =~= steps.take(k - 1));
            assert(steps.take(k as int).last() == steps[k - 1]);
        }
    }
}

/// Choosing among `a + b` is choosing among `a`, then among `b`.
pub proof fn lemma_chosen_entities_add(a: Seq<EntityEntry>, b: Seq<EntityEntry>, steps: Seq<Step>)
    ensures
        chosen_entities(a + b, steps) == chosen_entities(a, steps) + chosen_entities(b, steps),
    decreases b.len(),
{
    if b.len() == 0 {
        assert(a + b =~= a);
        assert(chosen_entities(a, steps) + chosen_entities(b, steps) =~= chosen_entities(
            a,
            steps,
        ));
    } else {
        assert((a + b).drop_last() =~= a + b.drop_last());
        assert((a + b).last() == b.last());
        lemma_chosen_entities_add(a, b.drop_last(), steps);
        assert(chosen_entities(a + b, steps) =~= chosen_entities(a, steps) + chosen_entities(
            b,
            steps,
        ));
    }
}

/// Choosing among `a + b` is choosing among `a`, then among `b`.
pub proof fn lemma_chosen_fields_add(a: Seq<FieldEntry>, b: Seq<FieldEntry>, steps: Seq<Step>)
    ensures
        chosen_fields(a + b, steps) == chosen_fields(a, steps) + chosen_fields(b, steps),
    decreases b.len(),
{
    if b.len() == 0 {
        assert(a + b =~= a);
        assert(chosen_fields(a, steps) + chosen_fields(b, steps) =~= chosen_fields(a, steps));
    } else {
        assert((a + b).drop_last() =~= a + b.drop_last());
        assert((a + b).last() == b.last());
        lemma_chosen_fields_add(a, b.drop_last(), steps);
        assert(chosen_fields(a + b, steps) =~= chosen_fields(a, steps) + chosen_fields(
            b,
            steps,
        ));
    }
}

/// The models of the entities that `found` refers to, in order.
pub open spec fn entity_values(found: Seq<&AstEntityNode>) -> Seq<SpecEntity> {
    Seq::new(found.len(), |i: int| (*found[i])@)
}

/// The models of the fields that `found` refers to, in order.
pub open spec fn field_values(found: Seq<&AstFieldNode>) -> Seq<SpecField> {
    Seq::new(found.len(), |i: int| (*found[i])@)
}

/// The steps of the selectors that `chain` refers to, in order.
pub open spec fn chain_steps(chain: Seq<&Selector>) -> Seq<Step> {
    Seq::new(chain.len(), |i: int| chain[i].step())
}

/// Whether the text `actual` is what the step's part `wanted` asks for.
fn text_matches(wanted: &Option<String>, actual: &String) -> (b: bool)
    ensures
        b == part_matches(crate::ast::text_of(*wanted), Some(actual@)),
{
    match wanted {
        Some(text) => *text == *actual,
        None => true,
    }
}

/// Whether the optional text `actual` is what the step's part `wanted` asks for.
fn optional_matches(wanted: &Option<String>, actual: &Option<String>) -> (b: bool)
    ensures
        b == part_matches(crate::ast::text_of(*wanted), crate::ast::text_of(*actual)),
{
    match wanted {
        Some(text) => match actual {
            Some(present) => *text == *present,
            None => false,
        },
        None => true,
    }
}

/// Whether the header `header` satisfies the first step of `selector`.
pub fn matches_selector(header: &AstEntityHeaderNode, selector: &Selector) -> (matches: bool)
    ensures
        matches == step_matches(selector.step(), header@),
{
    text_matches(&selector.main_type, &header.main_type) && optional_matches(
        &selector.sub_type,
        &header.sub_type,
    ) && optional_matches(&selector.identifier, &header.identifier)
}

/// The steps of `selector` one by one, the first one first.
fn selector_chain<'s>(selector: &'s Selector) -> (chain: Vec<&'s Selector>)
    ensures
        chain_steps(chain@) == selector@,
        chain.len() > 0,
{
    let mut chain: Vec<&'s Selector> = Vec::new();
    let mut current = selector;
    assert(chain_steps(chain@) + current@ =~= selector@);
    loop
        invariant
            chain_steps(chain@) + current@ == selector@,
        decreases current,
    {
        let ghost before = chain_steps(chain@);
        chain.push(current);
        assert(chain_steps(chain@) =~= before.push(current.step()));
        match &current.child {
            Some(child) => {
                assert(before + current@ =~= before.push(current.step()) + child@);
                current = child;
            },
            None => {
                assert(before + current@ =~= before.push(current.step()));
                return chain;
            },
        }
    }
}

/// The position in `steps` that a walk stands at below an entity with the header `header`,
/// if it stood at `matched` above it: one further if the header satisfies the step there and
/// that step is not the last.
fn step_into(header: &AstEntityHeaderNode, steps: &Vec<&Selector>, matched: usize) -> (deeper:
    usize)
    requires
        matched < steps.len(),
    ensures
        deeper == if matched + 1 < steps.len() && step_matches(
            chain_steps(steps@)[matched as int],
            header@,
        ) {
            matched + 1
        } else {
            matched as int
        },
{
    if matched + 1 < steps.len() && matches_selector(header, steps[matched]) {
        matched + 1
    } else {
        matched
    }
}

/// Adds to `result` what `steps` selects of `entity` and the entities inside it, in
/// pre-order. `matched` is how many of the steps before the last the entities around
/// `entity` have satisfied.
fn select_in_entity<'a>(
    entity: &'a AstEntityNode,
    steps: &Vec<&Selector>,
    matched: usize,
    Ghost(ancestors): Ghost<Seq<SpecHeader>>,
    result: &mut Vec<&'a AstEntityNode>,
)
    requires
        steps.len() > 0,
        matched == greedy(chain_steps(steps@).drop_last(), ancestors),
    ensures
        entity_values(final(result)@) == entity_values(old(result)@) + chosen_entities(
            entity_entries(entity@, ancestors),
            chain_steps(steps@),
        ),
    decreases entity, 0nat,
{
    let ghost all = chain_steps(steps@);
    let ghost before = all.drop_last();
    let ghost entry = EntityEntry { ancestors, entity: entity@ };
    let ghost inner = ancestors.push(entity@.header);
    let ghost found = entity_values(result@);
    proof {
        lemma_greedy(before, ancestors, before.len());
        assert(before.take(before.len() as int) =~= before);
        assert(inner.drop_last() =~= ancestors);
        assert(seq![entry].drop_last() =~= Seq::<EntityEntry>::empty());
        assert(chosen_entities(Seq::<EntityEntry>::empty(), all) =~= Seq::<SpecEntity>::empty());
        assert(seq![entry].last() == entry);
        assert(chosen_entities(seq![entry], all) =~= if entity_selected(all, entry) {
            seq![entity@]
        } else {
            Seq::<SpecEntity>::empty()
        });
        assert(all.last() == steps@[steps.len() - 1].step());
    }
    let n = steps.len();
    if matched + 1 == n && matches_selector(&entity.header, steps[n - 1]) {
        result.push(entity);
        assert(entity_selected(all, entry));
        assert(entity_values(result@) =~= found + seq![entity@]);
    } else {
        assert(!entity_selected(all, entry));
        assert(entity_values(result@) =~= found + Seq::<SpecEntity>::empty());
    }
    let deeper = step_into(&entity.header, steps, matched);
    select_in_entities(&entity.body.children, steps, deeper, Ghost(inner), result);
    proof {
        lemma_chosen_entities_add(
            seq![entry],
            entity_entries_among(entity@.body.children, entity@.body.children.len(), inner),
            all,
        );
    }
}

/// Adds to `result` what `steps` selects of `entities` and the entities inside them, in
/// pre-order.
fn select_in_entities<'a>(
    entities: &'a Vec<AstEntityNode>,
    steps: &Vec<&Selector>,
    matched: usize,
    Ghost(ancestors): Ghost<Seq<SpecHeader>>,
    result: &mut Vec<&'a AstEntityNode>,
)
    requires
        steps.len() > 0,
        matched == greedy(chain_steps(steps@).drop_last(), ancestors),
    ensures
        entity_values(final(result)@) == entity_values(old(result)@) + chosen_entities(
            entity_entries_among(entities_view(entities@), entities.len() as nat, ancestors),
            chain_steps(steps@),
        ),
    decreases entities, 1nat,
{
    let ghost all = chain_steps(steps@);
    let ghost models = entities_view(entities@);
    let ghost found = entity_values(result@);
    let mut i: usize = 0;
    assert(entity_values(result@) =~= found + chosen_entities(
        entity_entries_among(models, 0, ancestors),
        all,
    ));
    while i < entities.len()
        invariant
            i <= entities.len(),
            steps.len() > 0,
            all == chain_steps(steps@),
            models == entities_view(entities@),
            matched == greedy(all.drop_last(), ancestors),
            entity_values(result@) == found + chosen_entities(
                entity_entries_among(models, i as nat, ancestors),
                all,
            ),
        decreases entities.len() - i,
    {
        select_in_entity(&entities[i], steps, matched, Ghost(ancestors), result);
        proof {
            lemma_chosen_entities_add(
                entity_entries_among(models, i as nat, ancestors),
                entity_entries(models[i as int], ancestors),
                all,
            );
        }
        i += 1;
    }
}

/// Adds to `result` what `steps` selects of the fields of `entity` and of the entities
/// inside it, in pre-order.
fn select_field_in_entity<'a>(
    entity: &'a AstEntityNode,
    steps: &Vec<&Selector>,
    matched: usize,
    Ghost(ancestors): Ghost<Seq<SpecHeader>>,
    result: &mut Vec<&'a AstFieldNode>,
)
    requires
        steps.len() > 0,
        matched == greedy(chain_steps(steps@).drop_last(), ancestors),
    ensures
        field_values(final(result)@) == field_values(old(result)@) + chosen_fields(
            field_entries(entity@, ancestors),
            chain_steps(steps@),
        ),
    decreases entity, 0nat,
{
    let ghost all = chain_steps(steps@);
    let ghost before = all.drop_last();
    let ghost inner = ancestors.push(entity@.header);
    let ghost found = field_values(result@);
    let ghost own = own_fields(entity@.body.fields, inner);
    let n = steps.len();
    proof {
        assert(inner.drop_last() =~= ancestors);
        lemma_greedy(before, ancestors, before.len());
        lemma_greedy(before, inner, before.len());
        assert(before.take(before.len() as int) =~= before);
    }
    let deeper = step_into(&entity.header, steps, matched);
    let mut i: usize = 0;
    assert(own.take(0) =~= Seq::<FieldEntry>::empty());
    assert(field_values(result@) =~= found + chosen_fields(own.take(0), all));
    while i < entity.body.fields.len()
        invariant
            i <= entity.body.fields.len(),
            n == steps.len(),
            n > 0,
            deeper < n,
            all == chain_steps(steps@),
            before == all.drop_last(),
            own == own_fields(fields_view(entity.body.fields@), inner),
            embeds(before, inner) == (deeper + 1 == n),
            field_values(result@) == found + chosen_fields(own.take(i as int), all),
        decreases entity.body.fields.len() - i,
    {
        let ghost so_far = field_values(result@);
        let field = &entity.body.fields[i];
        let wanted = match &steps[n - 1].identifier {
            Some(identifier) => *identifier == field.identifier,
            None => false,
        };
        proof {
            assert(own.take(i + 1).drop_last() =~= own.take(i as int));
            assert(own.take(i + 1).last() == own[i as int]);
        }
        if deeper + 1 == n && wanted {
            result.push(field);
            assert(field_values(result@) =~= so_far.push(field@));
        }
        i += 1;
    }
    assert(own.take(i as int) =~= own);
    let ghost with_own = field_values(result@);
    select_field_in_entities(&entity.body.children, steps, deeper, Ghost(inner), result);
    proof {
        lemma_chosen_fields_add(
            own,
            field_entries_among(entity@.body.children, entity@.body.children.len(), inner),
            all,
        );
        assert(field_values(result@) =~= found + chosen_fields(
            field_entries(entity@, ancestors),
            all,
        ));
    }
}

/// Adds to `result` what `steps` selects of the fields of `entities` and of the entities
/// inside them, in pre-order.
fn select_field_in_entities<'a>(
    entities: &'a Vec<AstEntityNode>,
    steps: &Vec<&Selector>,
    matched: usize,
    Ghost(ancestors): Ghost<Seq<SpecHeader>>,
    result: &mut Vec<&'a AstFieldNode>,
)
    requires
        steps.len() > 0,
        matched == greedy(chain_steps(steps@).drop_last(), ancestors),
    ensures
        field_values(final(result)@) == field_values(old(result)@) + chosen_fields(
            field_entries_among(entities_view(entities@), entities.len() as nat, ancestors),
            chain_steps(steps@),
        ),
    decreases entities, 1nat,
{
    let ghost all = chain_steps(steps@);
    let ghost models = entities_view(entities@);
    let ghost found = field_values(result@);
    let mut i: usize = 0;
    assert(field_values(result@) =~= found + chosen_fields(
        field_entries_among(models, 0, ancestors),
        all,
    ));
    while i < entities.len()
        invariant
            i <= entities.len(),
            steps.len() > 0,
            all == chain_steps(steps@),
            models == entities_view(entities@),
            matched == greedy(all.drop_last(), ancestors),
            field_values(result@) == found + chosen_fields(
                field_entries_among(models, i as nat, ancestors),
                all,
            ),
        decreases entities.len() - i,
    {
        select_field_in_entity(&entities[i], steps, matched, Ghost(ancestors), result);
        proof {
            lemma_chosen_fields_add(
                field_entries_among(models, i as nat, ancestors),
                field_entries(models[i as int], ancestors),
                all,
            );
        }
        i += 1;
    }
}

/// The entities of `root` that `selector` selects, in pre-order.
pub fn select_entities<'a>(root: &'a AstRootNode, selector: &Selector) -> (found: Vec<
    &'a AstEntityNode,
>)
    ensures
        entity_values(found@) == selected_entities(root@, selector@),
{
    let steps = selector_chain(selector);
    let mut result: Vec<&'a AstEntityNode> = Vec::new();
    assert(entity_values(result@) =~= Seq::<SpecEntity>::empty());
    select_in_entities(&root.children, &steps, 0, Ghost(Seq::empty()), &mut result);
    assert(entity_values(result@) =~= selected_entities(root@, selector@));
    result
}

/// The fields of `root` that `selector` selects, in pre-order.
pub fn select_fields<'a>(root: &'a AstRootNode, selector: &Selector) -> (found: Vec<
    &'a AstFieldNode,
>)
    ensures
        field_values(found@) == selected_fields(root@, selector@),
{
    let steps = selector_chain(selector);
    let mut result: Vec<&'a AstFieldNode> = Vec::new();
    assert(field_values(result@) =~= Seq::<SpecField>::empty());
    select_field_in_entities(&root.children, &steps, 0, Ghost(Seq::empty()), &mut result);
    assert(field_values(result@) =~= selected_fields(root@, selector@));
    result
}

/// Compiles the selector text `selector_string`, or reports the first error in it.
pub fn compile_selector(selector_string: &str) -> (res: Result<Selector, String>)
    ensures
        match compiled_selector(selector_string@) {
            Ok(steps) => res matches Ok(selector) && selector@ == steps,
            Err(e) => res matches Err(message) && message@ == e.message(),
        },
{
    let tokens = match lex_selector(selector_string) {
        Ok(tokens) => tokens,
        Err(message) => {
            return Err(message);
        },
    };
    let parser = SelectorParser::new(tokens);
    assert(parser.remaining() =~= parser.tokens());
    parser.parse()
}

/// The entities of `root` that the selector `selector_string` selects, in pre-order; the
/// message of the first error in the selector if it is malformed.
pub fn select_entity<'a>(root: &'a AstRootNode, selector_string: &str) -> (res: Result<
    Vec<&'a AstEntityNode>,
    String,
>)
    ensures
        match compiled_selector(selector_string@) {
            Ok(steps) => res matches Ok(found) && entity_values(found@) == selected_entities(
                root@,
                steps,
            ),
            Err(e) => res matches Err(message) && message@ == e.message(),
        },
{
    match compile_selector(selector_string) {
        Ok(selector) => Ok(select_entities(root, &selector)),
        Err(message) => Err(message),
    }
}

/// The fields of `root` that the selector `selector_string` selects, in pre-order; the
/// message of the first error in the selector if it is malformed.
pub fn select_field<'a>(root: &'a AstRootNode, selector_string: &str) -> (res: Result<
    Vec<&'a AstFieldNode>,
    String,
>)
    ensures
        match compiled_selector(selector_string@) {
            Ok(steps) => res matches Ok(found) && field_values(found@) == selected_fields(
                root@,
                steps,
            ),
            Err(e) => res matches Err(message) && message@ == e.message(),
        },
{
    match compile_selector(selector_string) {
        Ok(selector) => Ok(select_fields(root, &selector)),
        Err(message) => Err(message),
    }
}

} // verus!
