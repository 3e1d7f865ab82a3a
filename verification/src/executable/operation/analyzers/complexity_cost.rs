//! The complexity of an operation. The walk builds a tree of scopes: each included
//! field with a cost, or of composite type, gets a scope under its parent's scope,
//! keyed by the type it was selected on and by its response name, so that the same
//! field selected twice (directly and through fragments) shares one scope. The cost of
//! a set of scopes is the greatest, over the object types the selections may resolve
//! to, of the sum over response keys of the key's cost plus the cost of its child
//! scopes, times its multiplier.
use vstd::prelude::*;
use crate::common::{first_index, lemma_first_index, lemma_first_index_is, lemma_first_index_none};
use crate::names::dedup;
use crate::document::{Field, spec_response_name};
use crate::document::ExecutableDocument;
use crate::executable::operation::analyzer::Analyzer;
use crate::executable::operation::orchestrator::{
    Event, OperationResolutionError, Orchestrator, spec_name_of, spec_resolution_error,
    spec_resolved_events,
};
use crate::executable::operation::variable_values::VariableValues;
use crate::schema::{
    FieldDefinition, SchemaDefinition, TypeReference, spec_base_name, spec_is_composite,
    strings_model,
};

pub mod arena;
pub mod cost_computer;
pub mod relay;

use arena::{Arena, NodeId};
use cost_computer::{CostComputer, FieldMultipliers};

verus! {

/// The fields selected on one type within a scope: response key to child scope.
pub struct TypedSelection {
    pub type_index: usize,
    pub inner_selection: Vec<(String, usize)>,
}

pub struct ComplexityScope<F> {
    pub cost: usize,
    pub multiplier: usize,
    pub typed_selections: Vec<TypedSelection>,
    pub field_multipliers: F,
}

/// A selection of fields: response key and child scope, in insertion order.
pub type SelectionModel = Seq<(Seq<char>, usize)>;

/// The content of a scope.
pub struct ScopeModel<F> {
    pub cost: usize,
    pub multiplier: usize,
    pub typed_selections: Seq<(usize, SelectionModel)>,
    pub field_multipliers: F,
}

pub open spec fn inner_model(inner: Seq<(String, usize)>) -> SelectionModel {
    inner.map_values(|e: (String, usize)| (e.0@, e.1))
}

impl TypedSelection {
    pub open spec fn model(self) -> (usize, SelectionModel) {
        (self.type_index, inner_model(self.inner_selection@))
    }
}

impl<F> ComplexityScope<F> {
    pub open spec fn model(self) -> ScopeModel<F> {
        ScopeModel {
            cost: self.cost,
            multiplier: self.multiplier,
            typed_selections: typed_model(self.typed_selections@),
            field_multipliers: self.field_multipliers,
        }
    }
}

pub open spec fn arena_model<F>(nodes: Seq<ComplexityScope<F>>) -> Seq<ScopeModel<F>> {
    nodes.map_values(|s: ComplexityScope<F>| s.model())
}

/// The scopes and the stack of scopes of the fields being visited (`None` for a leaf
/// field without cost).
pub struct CostState<F> {
    pub arena: Seq<ScopeModel<F>>,
    pub stack: Seq<Option<NodeId>>,
}

/// Every child scope comes after its parent, and every scope referred to exists.
pub open spec fn state_wf<F>(state: CostState<F>) -> bool {
    &&& forall|i: int, p: int, q: int|
        0 <= i < state.arena.len() && 0 <= p < state.arena[i].typed_selections.len() && 0 <= q
            < state.arena[i].typed_selections[p].1.len() ==> i < (
        #[trigger] state.arena[i].typed_selections[p].1[q]).1 < state.arena.len()
    &&& forall|k: int|
        0 <= k < state.stack.len() ==> (#[trigger] state.stack[k] matches Some(n) ==> n.0
            < state.arena.len())
}

pub open spec fn base_is_composite(schema: SchemaDefinition, ty: TypeReference) -> bool {
    match schema.type_index(spec_base_name(ty)) {
        Some(t) => 0 <= t < schema.types@.len() && spec_is_composite(schema.types@[t].kind),
        None => false,
    }
}

pub open spec fn has_type(ty: usize) -> spec_fn((usize, SelectionModel)) -> bool {
    |t: (usize, SelectionModel)| t.0 == ty
}

pub open spec fn has_key(key: Seq<char>) -> spec_fn((Seq<char>, usize)) -> bool {
    |e: (Seq<char>, usize)| e.0 == key
}

pub open spec fn type_position(ts: Seq<(usize, SelectionModel)>, ty: usize) -> Option<int> {
    first_index(ts, has_type(ty))
}

pub open spec fn key_position(inner: SelectionModel, key: Seq<char>) -> Option<int> {
    first_index(inner, has_key(key))
}

pub open spec fn typed_model(ts: Seq<TypedSelection>) -> Seq<(usize, SelectionModel)> {
    ts.map_values(|t: TypedSelection| t.model())
}

/// The typed selections after selecting `key` on type `ty`, and the child scope it
/// leads to: the existing one, or `next`.
pub open spec fn register_selection(
    ts: Seq<(usize, SelectionModel)>,
    ty: usize,
    key: Seq<char>,
    next: usize,
) -> (Seq<(usize, SelectionModel)>, usize) {
    match type_position(ts, ty) {
        Some(p) => match key_position(ts[p].1, key) {
            Some(q) => (ts, ts[p].1[q].1),
            None => (ts.update(p, (ty, ts[p].1.push((key, next)))), next),
        },
        None => (ts.push((ty, seq![(key, next)])), next),
    }
}

pub open spec fn max_usize(a: usize, b: usize) -> usize {
    if a > b {
        a
    } else {
        b
    }
}

/// Visiting an included field: a leaf field without cost only holds its place on the
/// stack; any other field is registered in the scope of its parent, and its scope
/// takes the multiplier the parent gives it and the greatest cost seen for it.
/// `None` where there is no parent scope to register in.
pub open spec fn visit_step<C: CostComputer>(
    cost_computer: C,
    schema: SchemaDefinition,
    state: CostState<C::FieldMultipliers>,
    field: Field,
    field_definition: FieldDefinition,
    scoped_type: usize,
) -> Option<CostState<C::FieldMultipliers>> {
    let cost = cost_computer.spec_cost_for_field_definition(field_definition);
    if cost == 0 && !base_is_composite(schema, field_definition.type_ref) {
        Some(CostState { arena: state.arena, stack: state.stack.push(None) })
    } else if state.stack.len() == 0 {
        None
    } else {
        match state.stack.last() {
            None => None,
            Some(p) => if p.0 < state.arena.len() {
                let parent = state.arena[p.0 as int];
                let multiplier = parent.field_multipliers.spec_multiplier_for_field(field);
                let next = state.arena.len() as usize;
                let registered = register_selection(
                    parent.typed_selections,
                    scoped_type,
                    spec_response_name(field),
                    next,
                );
                let arena1 = state.arena.update(
                    p.0 as int,
                    ScopeModel {
                        cost: parent.cost,
                        multiplier: parent.multiplier,
                        typed_selections: registered.0,
                        field_multipliers: parent.field_multipliers,
                    },
                );
                let child = registered.1;
                let arena2 = if child == next {
                    arena1.push(
                        ScopeModel {
                            cost: 0,
                            multiplier: 1,
                            typed_selections: Seq::empty(),
                            field_multipliers: cost_computer.spec_field_multipliers(
                                field_definition,
                                field,
                            ),
                        },
                    )
                } else {
                    arena1
                };
                if child < arena2.len() {
                    let s = arena2[child as int];
                    Some(
                        CostState {
                            arena: arena2.update(
                                child as int,
                                ScopeModel {
                                    cost: max_usize(s.cost, cost),
                                    multiplier,
                                    typed_selections: s.typed_selections,
                                    field_multipliers: s.field_multipliers,
                                },
                            ),
                            stack: state.stack.push(Some(NodeId(child))),
                        },
                    )
                } else {
                    None
                }
            } else {
                None
            },
        }
    }
}

/// Leaving an included field pops its place off the stack.
pub open spec fn leave_step<F>(state: CostState<F>, included: bool) -> Option<CostState<F>> {
    if !included {
        Some(state)
    } else if state.stack.len() == 0 {
        None
    } else {
        Some(CostState { arena: state.arena, stack: state.stack.drop_last() })
    }
}

pub open spec fn event_step<C: CostComputer>(
    cost_computer: C,
    schema: SchemaDefinition,
    state: CostState<C::FieldMultipliers>,
    event: Event,
) -> Option<CostState<C::FieldMultipliers>> {
    match event {
        Event::VisitField { field, field_definition, scoped_type, included } => if included {
            visit_step(cost_computer, schema, state, *field, *field_definition, scoped_type)
        } else {
            Some(state)
        },
        Event::LeaveField { included, .. } => leave_step(state, included),
        _ => Some(state),
    }
}

/// A single root scope with unconfigured multipliers, on the stack.
pub open spec fn initial_state<C: CostComputer>() -> CostState<C::FieldMultipliers> {
    CostState {
        arena: seq![
            ScopeModel {
                cost: 0,
                multiplier: 1,
                typed_selections: Seq::empty(),
                field_multipliers: C::FieldMultipliers::spec_unconfigured(),
            },
        ],
        stack: seq![Some(NodeId(0))],
    }
}

/// The state after a sequence of events, unless some step has no parent scope.
pub open spec fn run<C: CostComputer>(
    cost_computer: C,
    schema: SchemaDefinition,
    events: Seq<Event>,
) -> Option<CostState<C::FieldMultipliers>>
    decreases events.len(),
{
    if events.len() == 0 {
        Some(initial_state::<C>())
    } else {
        match run(cost_computer, schema, events.drop_last()) {
            Some(state) => event_step(cost_computer, schema, state, events.last()),
            None => None,
        }
    }
}

/// The possible types of the typed selections of a scope, with repetitions.
pub open spec fn typed_candidates(schema: SchemaDefinition, ts: Seq<(usize, SelectionModel)>) -> Seq<
    Seq<char>,
>
    decreases ts.len(),
{
    if ts.len() == 0 {
        Seq::empty()
    } else {
        typed_candidates(schema, ts.drop_last()) + schema.possible_types(ts.last().0 as int)
    }
}

pub open spec fn candidates<F>(
    schema: SchemaDefinition,
    arena: Seq<ScopeModel<F>>,
    scopes: Seq<usize>,
) -> Seq<Seq<char>>
    decreases scopes.len(),
{
    if scopes.len() == 0 {
        Seq::empty()
    } else {
        candidates(schema, arena, scopes.drop_last()) + typed_candidates(
            schema,
            arena[scopes.last() as int].typed_selections,
        )
    }
}

/// The selections of a scope whose type may resolve to the object type `name`.
pub open spec fn typed_matching(
    schema: SchemaDefinition,
    ts: Seq<(usize, SelectionModel)>,
    name: Seq<char>,
) -> Seq<SelectionModel>
    decreases ts.len(),
{
    if ts.len() == 0 {
        Seq::empty()
    } else {
        typed_matching(schema, ts.drop_last(), name) + if schema.possible_types(
            ts.last().0 as int,
        ).contains(name) {
            seq![ts.last().1]
        } else {
            Seq::empty()
        }
    }
}

pub open spec fn matching_selections<F>(
    schema: SchemaDefinition,
    arena: Seq<ScopeModel<F>>,
    scopes: Seq<usize>,
    name: Seq<char>,
) -> Seq<SelectionModel>
    decreases scopes.len(),
{
    if scopes.len() == 0 {
        Seq::empty()
    } else {
        matching_selections(schema, arena, scopes.drop_last(), name) + typed_matching(
            schema,
            arena[scopes.last() as int].typed_selections,
            name,
        )
    }
}

pub open spec fn all_keys(sels: Seq<SelectionModel>) -> Seq<Seq<char>>
    decreases sels.len(),
{
    if sels.len() == 0 {
        Seq::empty()
    } else {
        all_keys(sels.drop_last()) + sels.last().map_values(|e: (Seq<char>, usize)| e.0)
    }
}

/// The child scope `key` leads to in a selection.
pub open spec fn key_child(sel: SelectionModel, key: Seq<char>) -> Option<usize> {
    match key_position(sel, key) {
        Some(q) => Some(sel[q].1),
        None => None,
    }
}

/// The greatest cost among the child scopes that `key` leads to.
pub open spec fn key_cost_max<F>(arena: Seq<ScopeModel<F>>, sels: Seq<SelectionModel>, key: Seq<char>) -> usize
    decreases sels.len(),
{
    if sels.len() == 0 {
        0
    } else {
        let m = key_cost_max(arena, sels.drop_last(), key);
        match key_child(sels.last(), key) {
            Some(c) => if c < arena.len() {
                max_usize(m, arena[c as int].cost)
            } else {
                m
            },
            None => m,
        }
    }
}

/// The greatest multiplier among the child scopes that `key` leads to.
pub open spec fn key_multiplier_max<F>(
    arena: Seq<ScopeModel<F>>,
    sels: Seq<SelectionModel>,
    key: Seq<char>,
) -> usize
    decreases sels.len(),
{
    if sels.len() == 0 {
        0
    } else {
        let m = key_multiplier_max(arena, sels.drop_last(), key);
        match key_child(sels.last(), key) {
            Some(c) => if c < arena.len() {
                max_usize(m, arena[c as int].multiplier)
            } else {
                m
            },
            None => m,
        }
    }
}

/// The child scopes that `key` leads to and that have selections of their own.
pub open spec fn composite_children<F>(
    arena: Seq<ScopeModel<F>>,
    sels: Seq<SelectionModel>,
    key: Seq<char>,
) -> Seq<usize>
    decreases sels.len(),
{
    if sels.len() == 0 {
        Seq::empty()
    } else {
        composite_children(arena, sels.drop_last(), key) + match key_child(sels.last(), key) {
            Some(c) => if c < arena.len() && arena[c as int].typed_selections.len() > 0 {
                seq![c]
            } else {
                Seq::empty()
            },
            None => Seq::empty(),
        }
    }
}

/// The cost of a set of scopes whose ids are at least `lo`: the greatest cost over the
/// object types their selections may resolve to.
pub open spec fn scopes_cost<F>(
    schema: SchemaDefinition,
    arena: Seq<ScopeModel<F>>,
    scopes: Seq<usize>,
    lo: int,
) -> nat
    decreases arena.len() - lo, 2int, 0int,
{
    if 0 <= lo < arena.len() {
        names_cost(schema, arena, scopes, candidates(schema, arena, scopes), lo)
    } else {
        0
    }
}

/// The greatest cost over the object types `names`.
pub open spec fn names_cost<F>(
    schema: SchemaDefinition,
    arena: Seq<ScopeModel<F>>,
    scopes: Seq<usize>,
    names: Seq<Seq<char>>,
    lo: int,
) -> nat
    decreases arena.len() - lo, 1int, names.len(),
{
    if 0 <= lo < arena.len() && names.len() > 0 {
        let m = names_cost(schema, arena, scopes, names.drop_last(), lo);
        let c = name_cost(schema, arena, scopes, names.last(), lo);
        if c > m {
            c
        } else {
            m
        }
    } else {
        0
    }
}

/// The cost of the scopes' selections that apply to the object type `name`.
pub open spec fn name_cost<F>(
    schema: SchemaDefinition,
    arena: Seq<ScopeModel<F>>,
    scopes: Seq<usize>,
    name: Seq<char>,
    lo: int,
) -> nat
    decreases arena.len() - lo, 1int, 0int,
{
    if 0 <= lo < arena.len() {
        let sels = matching_selections(schema, arena, scopes, name);
        keys_cost(schema, arena, sels, dedup(all_keys(sels)), lo)
    } else {
        0
    }
}

/// The sum over `keys` of the key's greatest cost plus the cost of its child scopes,
/// times its greatest multiplier.
pub open spec fn keys_cost<F>(
    schema: SchemaDefinition,
    arena: Seq<ScopeModel<F>>,
    sels: Seq<SelectionModel>,
    keys: Seq<Seq<char>>,
    lo: int,
) -> nat
    decreases arena.len() - lo, 0int, keys.len(),
{
    if 0 <= lo < arena.len() && keys.len() > 0 {
        let k = keys.last();
        keys_cost(schema, arena, sels, keys.drop_last(), lo) + ((key_cost_max(arena, sels, k) as nat)
            + scopes_cost(schema, arena, composite_children(arena, sels, k), lo + 1)) * (
        key_multiplier_max(arena, sels, k) as nat)
    } else {
        0
    }
}

/// A cost that does not fit in a `usize` is reported as `usize::MAX`.
pub open spec fn saturate(x: nat) -> usize {
    if x > usize::MAX {
        usize::MAX
    } else {
        x as usize
    }
}

/// The cost of a finished walk: that of its root scope.
pub open spec fn state_cost<F>(schema: SchemaDefinition, state: CostState<F>) -> Option<nat> {
    if state.stack.len() > 0 {
        match state.stack[0] {
            Some(r) => if r.0 < state.arena.len() {
                Some(scopes_cost(schema, state.arena, seq![r.0], 0))
            } else {
                None
            },
            None => None,
        }
    } else {
        None
    }
}

/// The complexity of a walk, when every included field has a parent scope and the
/// root scope is still on the stack at the end.
pub open spec fn complexity<C: CostComputer>(
    cost_computer: C,
    schema: SchemaDefinition,
    events: Seq<Event>,
) -> Option<nat> {
    match run(cost_computer, schema, events) {
        Some(state) => state_cost(schema, state),
        None => None,
    }
}

/// The ids of all selections lie strictly between `lo` and `hi`.
pub open spec fn selections_within(ts: Seq<(usize, SelectionModel)>, lo: int, hi: int) -> bool {
    forall|p: int, q: int|
        0 <= p < ts.len() && 0 <= q < ts[p].1.len() ==> lo < (#[trigger] ts[p].1[q]).1 < hi
}

proof fn lemma_register_within(ts: Seq<(usize, SelectionModel)>, ty: usize, key: Seq<char>, next: usize, lo: int)
    requires
        selections_within(ts, lo, next as int),
        lo < next,
    ensures
        selections_within(register_selection(ts, ty, key, next).0, lo, next + 1),
        lo < register_selection(ts, ty, key, next).1 <= next,
{
    lemma_first_index(ts, has_type(ty));
    match type_position(ts, ty) {
        Some(p) => {
            lemma_first_index(ts[p].1, has_key(key));
            match key_position(ts[p].1, key) {
                Some(q) => {
                    assert(lo < ts[p].1[q].1 < next);
                },
                None => {
                    let r = register_selection(ts, ty, key, next).0;
                    assert forall|a: int, b: int| 0 <= a < r.len() && 0 <= b < r[a].1.len() implies lo
                        < (#[trigger] r[a].1[b]).1 < next + 1 by {
                        if a != p {
                            assert(r[a] == ts[a]);
                        } else if b < ts[p].1.len() {
                            assert(r[a].1[b] == ts[p].1[b]);
                        }
                    }
                },
            }
        },
        None => {
            let r = register_selection(ts, ty, key, next).0;
            assert forall|a: int, b: int| 0 <= a < r.len() && 0 <= b < r[a].1.len() implies lo
                < (#[trigger] r[a].1[b]).1 < next + 1 by {
                if a < ts.len() {
                    assert(r[a] == ts[a]);
                }
            }
        },
    }
}

fn find_type_position(ts: &Vec<TypedSelection>, ty: usize) -> (r: Option<usize>)
    ensures
        r matches Some(p) ==> type_position(typed_model(ts@), ty) == Some(p as int) && p < ts@.len(),
        r is None ==> type_position(typed_model(ts@), ty) is None,
{
    let ghost m = typed_model(ts@);
    let mut i: usize = 0;
    while i < ts.len()
        invariant
            i <= ts.len(),
            m == typed_model(ts@),
            forall|j: int| 0 <= j < i ==> !has_type(ty)(#[trigger] m[j]),
        decreases ts.len() - i,
    {
        if ts[i].type_index == ty {
            proof { lemma_first_index_is(m, has_type(ty), i as int); }
            return Some(i);
        }
        proof { assert(!has_type(ty)(m[i as int])); }
        i += 1;
    }
    proof { lemma_first_index_none(m, has_type(ty)); }
    None
}

fn find_key(inner: &Vec<(String, usize)>, key: &String) -> (r: Option<usize>)
    ensures
        r matches Some(q) ==> key_position(inner_model(inner@), key@) == Some(q as int) && q < inner@.len(),
        r is None ==> key_position(inner_model(inner@), key@) is None,
{
    let ghost m = inner_model(inner@);
    let mut i: usize = 0;
    while i < inner.len()
        invariant
            i <= inner.len(),
            m == inner_model(inner@),
            forall|j: int| 0 <= j < i ==> !has_key(key@)(#[trigger] m[j]),
        decreases inner.len() - i,
    {
        if inner[i].0 == *key {
            proof { lemma_first_index_is(m, has_key(key@), i as int); }
            return Some(i);
        }
        proof { assert(!has_key(key@)(m[i as int])); }
        i += 1;
    }
    proof { lemma_first_index_none(m, has_key(key@)); }
    None
}

impl<F> ComplexityScope<F> {
    /// Selects `key` on type `ty`, creating the selection (with child `next`) if needed,
    /// and returns the child scope it leads to.
    fn register(&mut self, ty: usize, key: &String, next: usize) -> (r: usize)
        ensures
            final(self).cost == old(self).cost,
            final(self).multiplier == old(self).multiplier,
            final(self).field_multipliers == old(self).field_multipliers,
            (final(self).model().typed_selections, r) == register_selection(
                old(self).model().typed_selections,
                ty,
                key@,
                next,
            ),
    {
        let ghost ts = self.model().typed_selections;
        proof { lemma_first_index(ts, has_type(ty)); }
        match find_type_position(&self.typed_selections, ty) {
            Some(p) => match find_key(&self.typed_selections[p].inner_selection, key) {
                Some(q) => {
                    proof { assert(ts[p as int].1 == inner_model(self.typed_selections@[p as int].inner_selection@)); }
                    self.typed_selections[p].inner_selection[q].1
                },
                None => {
                    let ghost old_inner = self.typed_selections@[p as int].inner_selection@;
                    self.typed_selections[p].inner_selection.push((key.clone(), next));
                    proof {
                        assert(inner_model(self.typed_selections@[p as int].inner_selection@) =~= inner_model(
                            old_inner,
                        ).push((key@, next)));
                        assert(self.typed_selections@[p as int].type_index == ty);
                        assert(self.model().typed_selections =~= ts.update(
                            p as int,
                            (ty, ts[p as int].1.push((key@, next))),
                        ));
                    }
                    next
                },
            },
            None => {
                let mut inner: Vec<(String, usize)> = Vec::new();
                inner.push((key.clone(), next));
                self.typed_selections.push(TypedSelection { type_index: ty, inner_selection: inner });
                proof {
                    assert(inner_model(inner@) =~= seq![(key@, next)]);
                    assert(self.model().typed_selections =~= ts.push((ty, seq![(key@, next)])));
                }
                next
            },
        }
    }
}

pub fn base_type_is_composite(schema: &SchemaDefinition, ty: &TypeReference) -> (r: bool)
    ensures
        r == base_is_composite(*schema, *ty),
{
    match schema.get_type_definition(ty.base_name()) {
        Some(t) => schema.types[t].is_composite(),
        None => false,
    }
}

/// Builds the tree of scopes over a walk and reports the cost of its root.
pub struct ComplexityCost<'a, C: CostComputer> {
    pub schema_definition: &'a SchemaDefinition,
    pub cost_computer: C,
    pub scopes_arena: Arena<ComplexityScope<C::FieldMultipliers>>,
    pub scopes_stack: Vec<Option<NodeId>>,
}

impl<'a, C: CostComputer> ComplexityCost<'a, C> {
    pub open spec fn state(&self) -> CostState<C::FieldMultipliers> {
        CostState { arena: arena_model(self.scopes_arena.nodes@), stack: self.scopes_stack@ }
    }

    pub open spec fn inv(&self) -> bool {
        state_wf(self.state())
    }

    pub fn new(schema_definition: &'a SchemaDefinition, cost_computer: C) -> (r: Self)
        ensures
            r.schema_definition == schema_definition,
            r.cost_computer == cost_computer,
            r.state() == initial_state::<C>(),
            r.inv(),
    {
        let mut scopes_arena = Arena::new();
        let root = scopes_arena.add(
            ComplexityScope {
                cost: 0,
                multiplier: 1,
                typed_selections: Vec::new(),
                field_multipliers: C::FieldMultipliers::unconfigured(),
            },
        );
        let mut scopes_stack: Vec<Option<NodeId>> = Vec::new();
        scopes_stack.push(Some(root));
        let r = ComplexityCost { schema_definition, cost_computer, scopes_arena, scopes_stack };
        proof {
            assert(typed_model(r.scopes_arena.nodes@[0].typed_selections@)
                =~= Seq::<(usize, SelectionModel)>::empty());
            assert(r.state().arena =~= initial_state::<C>().arena);
            assert(r.state().stack =~= initial_state::<C>().stack);
        }
        r
    }

    /// Registers an included field in the scope of its parent (see `visit_step`).
    pub fn visit_field(
        &mut self,
        field: &Field,
        field_definition: &FieldDefinition,
        scoped_type: usize,
        included: bool,
    )
        requires
            old(self).inv(),
            included ==> visit_step(
                old(self).cost_computer,
                *old(self).schema_definition,
                old(self).state(),
                *field,
                *field_definition,
                scoped_type,
            ) is Some,
        ensures
            final(self).inv(),
            final(self).schema_definition == old(self).schema_definition,
            final(self).cost_computer == old(self).cost_computer,
            included ==> visit_step(
                old(self).cost_computer,
                *old(self).schema_definition,
                old(self).state(),
                *field,
                *field_definition,
                scoped_type,
            ) == Some(final(self).state()),
            !included ==> final(self).state() == old(self).state(),
    {
        if !included {
            return;
        }
        let cost = self.cost_computer.cost_for_field_definition(field_definition);
        if cost == 0 && !base_type_is_composite(self.schema_definition, &field_definition.type_ref) {
            self.scopes_stack.push(None);
            proof {
                assert(self.state().stack =~= old(self).state().stack.push(None));
                assert forall|k: int| 0 <= k < self.state().stack.len() implies (
                #[trigger] self.state().stack[k] matches Some(n) ==> n.0 < self.state().arena.len()) by {
                    if k < old(self).state().stack.len() {
                        assert(self.state().stack[k] == old(self).state().stack[k]);
                    }
                }
            }
            return;
        }
        let depth = self.scopes_stack.len();
        let top = self.scopes_stack[depth - 1];
        let p = match top {
            Some(p) => p,
            None => {
                return;
            },
        };
        let ghost s0 = self.state();
        let next = self.scopes_arena.next_id();
        let key = field.response_name();
        let (multiplier, child) = match self.scopes_arena.get_mut(p) {
            Some(parent) => {
                let m = parent.field_multipliers.multiplier_for_field(field);
                let c = parent.register(scoped_type, key, next.0);
                (m, c)
            },
            None => {
                return;
            },
        };
        let ghost parent_old = s0.arena[p.0 as int];
        let ghost registered = register_selection(
            parent_old.typed_selections,
            scoped_type,
            spec_response_name(*field),
            next.0,
        );
        let ghost arena1 = s0.arena.update(
            p.0 as int,
            ScopeModel {
                cost: parent_old.cost,
                multiplier: parent_old.multiplier,
                typed_selections: registered.0,
                field_multipliers: parent_old.field_multipliers,
            },
        );
        proof {
            assert(arena_model(self.scopes_arena.nodes@) =~= arena1);
            assert(state_wf(s0));
            assert(selections_within(parent_old.typed_selections, p.0 as int, next.0 as int)) by {
                assert forall|a: int, b: int|
                    0 <= a < parent_old.typed_selections.len() && 0 <= b
                        < parent_old.typed_selections[a].1.len() implies p.0 < (
                #[trigger] parent_old.typed_selections[a].1[b]).1 < next.0 by {
                    assert(s0.arena[p.0 as int].typed_selections[a].1[b] == parent_old.typed_selections[a].1[b]);
                }
            }
            lemma_register_within(parent_old.typed_selections, scoped_type, spec_response_name(*field), next.0, p.0 as int);
        }
        if child == next.0 {
            let field_multipliers = self.cost_computer.field_multipliers(field_definition, field);
            self.scopes_arena.add(
                ComplexityScope { cost: 0, multiplier: 1, typed_selections: Vec::new(), field_multipliers },
            );
            proof {
                assert(typed_model(self.scopes_arena.nodes@.last().typed_selections@)
                    =~= Seq::<(usize, SelectionModel)>::empty());
            }
        }
        let ghost arena2 = if child == next.0 {
            arena1.push(
                ScopeModel {
                    cost: 0,
                    multiplier: 1,
                    typed_selections: Seq::empty(),
                    field_multipliers: self.cost_computer.spec_field_multipliers(*field_definition, *field),
                },
            )
        } else {
            arena1
        };
        proof {
            assert(arena_model(self.scopes_arena.nodes@) =~= arena2);
        }
        match self.scopes_arena.get_mut(NodeId(child)) {
            Some(scope) => {
                scope.multiplier = multiplier;
                if cost > scope.cost {
                    scope.cost = cost;
                }
            },
            None => {
                return;
            },
        }
        self.scopes_stack.push(Some(NodeId(child)));
        proof {
            let s = arena2[child as int];
            let arena3 = arena2.update(
                child as int,
                ScopeModel {
                    cost: max_usize(s.cost, cost),
                    multiplier,
                    typed_selections: s.typed_selections,
                    field_multipliers: s.field_multipliers,
                },
            );
            assert(arena_model(self.scopes_arena.nodes@) =~= arena3);
            assert(self.scopes_stack@ =~= s0.stack.push(Some(NodeId(child))));
            assert(self.state() == CostState { arena: arena3, stack: s0.stack.push(Some(NodeId(child))) });
            assert forall|i: int, a: int, b: int|
                0 <= i < arena3.len() && 0 <= a < arena3[i].typed_selections.len() && 0 <= b
                    < arena3[i].typed_selections[a].1.len() implies i < (
            #[trigger] arena3[i].typed_selections[a].1[b]).1 < arena3.len() by {
                if i == p.0 {
                } else if i < s0.arena.len() {
                    assert(arena3[i].typed_selections == s0.arena[i].typed_selections);
                }
            }
            assert forall|k: int| 0 <= k < self.state().stack.len() implies (
            #[trigger] self.state().stack[k] matches Some(n) ==> n.0 < self.state().arena.len()) by {
                if k < s0.stack.len() {
                    assert(self.state().stack[k] == s0.stack[k]);
                }
            }
        }
    }

    /// Leaving an included field returns to the scope of its parent.
    pub fn leave_field(&mut self, included: bool)
        requires
            old(self).inv(),
            included ==> old(self).state().stack.len() > 0,
        ensures
            final(self).inv(),
            final(self).schema_definition == old(self).schema_definition,
            final(self).cost_computer == old(self).cost_computer,
            leave_step(old(self).state(), included) == Some(final(self).state()),
    {
        if included {
            self.scopes_stack.pop();
            proof {
                assert(self.state().stack =~= old(self).state().stack.drop_last());
                assert forall|k: int| 0 <= k < self.state().stack.len() implies (
                #[trigger] self.state().stack[k] matches Some(n) ==> n.0 < self.state().arena.len()) by {
                    assert(self.state().stack[k] == old(self).state().stack[k]);
                }
            }
        }
    }
}

pub open spec fn sels_model(sels: Seq<&Vec<(String, usize)>>) -> Seq<SelectionModel> {
    sels.map_values(|v: &Vec<(String, usize)>| inner_model(v@))
}

pub open spec fn keys_of(sel: SelectionModel) -> Seq<Seq<char>> {
    sel.map_values(|e: (Seq<char>, usize)| e.0)
}

proof fn lemma_strings_model_append(a: Seq<String>, b: Seq<String>)
    ensures
        strings_model(a + b) == strings_model(a) + strings_model(b),
{
    assert(strings_model(a + b) =~= strings_model(a) + strings_model(b));
}

/// The cost of an object type is at most the greatest cost over names containing it.
proof fn lemma_names_cost_ge<F>(
    schema: SchemaDefinition,
    arena: Seq<ScopeModel<F>>,
    scopes: Seq<usize>,
    names: Seq<Seq<char>>,
    lo: int,
    k: int,
)
    requires
        0 <= lo < arena.len(),
        0 <= k < names.len(),
    ensures
        name_cost(schema, arena, scopes, names[k], lo) <= names_cost(schema, arena, scopes, names, lo),
    decreases names.len(),
{
    if k < names.len() - 1 {
        lemma_names_cost_ge(schema, arena, scopes, names.drop_last(), lo, k);
        assert(names.drop_last()[k] == names[k]);
    }
}

proof fn lemma_saturating_mul(a: nat, m: usize)
    ensures
        (if saturate(a) as nat * m as nat > usize::MAX {
            usize::MAX
        } else {
            (saturate(a) as nat * m as nat) as usize
        }) == saturate(a * (m as nat)),
{
    if a <= usize::MAX {
    } else if m == 0 {
        assert(a * m == 0) by (nonlinear_arith)
            requires
                m == 0,
        ;
    } else if m == 1 {
        assert(a * m == a) by (nonlinear_arith)
            requires
                m == 1,
        ;
    } else {
        assert(usize::MAX as nat * m as nat > usize::MAX) by (nonlinear_arith)
            requires
                m >= 2,
        ;
        assert(a * m > usize::MAX) by (nonlinear_arith)
            requires
                m >= 2,
                a > usize::MAX,
        ;
    }
}

fn saturating_mul(a: usize, m: usize) -> (r: usize)
    ensures
        r == (if a as nat * m as nat > usize::MAX {
            usize::MAX
        } else {
            (a as nat * m as nat) as usize
        }),
{
    match a.checked_mul(m) {
        Some(x) => x,
        None => usize::MAX,
    }
}

fn contains_string(v: &Vec<String>, s: &String) -> (r: bool)
    ensures
        r == strings_model(v@).contains(s@),
{
    let mut i: usize = 0;
    while i < v.len()
        invariant
            i <= v.len(),
            forall|j: int| 0 <= j < i ==> v@[j]@ != s@,
        decreases v.len() - i,
    {
        if v[i] == *s {
            proof { assert(strings_model(v@)[i as int] == s@); }
            return true;
        }
        i += 1;
    }
    proof {
        assert forall|j: int| 0 <= j < strings_model(v@).len() implies strings_model(v@)[j] != s@ by {
            assert(strings_model(v@)[j] == v@[j]@);
        }
    }
    false
}

/// The distinct response keys of the selections, in the order they first appear.
fn unique_keys(sels: &Vec<&Vec<(String, usize)>>) -> (r: Vec<String>)
    ensures
        strings_model(r@) == dedup(all_keys(sels_model(sels@))),
{
    let ghost sm = sels_model(sels@);
    let mut r: Vec<String> = Vec::new();
    let mut i: usize = 0;
    while i < sels.len()
        invariant
            i <= sels.len(),
            sm == sels_model(sels@),
            strings_model(r@) == dedup(all_keys(sm.take(i as int))),
        decreases sels.len() - i,
    {
        let sel: &Vec<(String, usize)> = sels[i];
        let ghost ks = keys_of(sm[i as int]);
        proof {
            assert(sm[i as int] == inner_model(sel@));
            assert(all_keys(sm.take(i as int)) + ks.take(0) =~= all_keys(sm.take(i as int)));
        }
        let mut j: usize = 0;
        while j < sel.len()
            invariant
                i < sels.len(),
                j <= sel.len(),
                sm == sels_model(sels@),
                sel == sels@[i as int],
                ks == keys_of(sm[i as int]),
                ks.len() == sel@.len(),
                strings_model(r@) == dedup(all_keys(sm.take(i as int)) + ks.take(j as int)),
            decreases sel.len() - j,
        {
            let ghost prefix = all_keys(sm.take(i as int)) + ks.take(j as int);
            proof {
                assert(ks[j as int] == sel@[j as int].0@);
                assert((all_keys(sm.take(i as int)) + ks.take(j + 1)).drop_last() =~= prefix);
                assert((all_keys(sm.take(i as int)) + ks.take(j + 1)).last() == sel@[j as int].0@);
            }
            if !contains_string(&r, &sel[j].0) {
                let ghost before = r@;
                r.push(sel[j].0.clone());
                proof { assert(strings_model(r@) =~= strings_model(before).push(sel@[j as int].0@)); }
            }
            j += 1;
        }
        proof {
            assert(ks.take(j as int) =~= ks);
            assert(sm.take(i + 1).drop_last() =~= sm.take(i as int));
            assert(sm.take(i + 1).last() == sm[i as int]);
        }
        i += 1;
    }
    proof { assert(sm.take(i as int) =~= sm); }
    r
}

impl<'a, C: CostComputer> ComplexityCost<'a, C> {
    /// The possible types of every typed selection of the scopes, with repetitions.
    fn collect_candidates(&self, scopes: &Vec<usize>) -> (r: Vec<String>)
        requires
            forall|k: int| 0 <= k < scopes@.len() ==> #[trigger] scopes@[k] < self.scopes_arena.nodes@.len(),
        ensures
            strings_model(r@) == candidates(*self.schema_definition, self.state().arena, scopes@),
    {
        let ghost arena = self.state().arena;
        let schema = self.schema_definition;
        let mut r: Vec<String> = Vec::new();
        let mut i: usize = 0;
        while i < scopes.len()
            invariant
                i <= scopes.len(),
                arena == self.state().arena,
                schema == self.schema_definition,
                forall|k: int| 0 <= k < scopes@.len() ==> #[trigger] scopes@[k] < self.scopes_arena.nodes@.len(),
                strings_model(r@) == candidates(*schema, arena, scopes@.take(i as int)),
            decreases scopes.len() - i,
        {
            let ts = &self.scopes_arena.nodes[scopes[i]].typed_selections;
            let ghost tm = arena[scopes@[i as int] as int].typed_selections;
            proof {
                assert(tm == typed_model(ts@));
                assert(candidates(*schema, arena, scopes@.take(i as int)) + typed_candidates(*schema, tm.take(0))
                    =~= candidates(*schema, arena, scopes@.take(i as int)));
            }
            let mut j: usize = 0;
            while j < ts.len()
                invariant
                    i < scopes.len(),
                    j <= ts.len(),
                    tm == typed_model(ts@),
                    strings_model(r@) == candidates(*schema, arena, scopes@.take(i as int)) + typed_candidates(
                        *schema,
                        tm.take(j as int),
                    ),
                decreases ts.len() - j,
            {
                let mut names = schema.possible_type_names(ts[j].type_index);
                let ghost before = r@;
                let ghost added = names@;
                r.append(&mut names);
                proof {
                    lemma_strings_model_append(before, added);
                    assert(tm.take(j + 1).drop_last() =~= tm.take(j as int));
                    assert(tm.take(j + 1).last() == tm[j as int]);
                    assert(tm[j as int].0 == ts@[j as int].type_index);
                }
                j += 1;
            }
            proof {
                assert(tm.take(j as int) =~= tm);
                assert(scopes@.take(i + 1).drop_last() =~= scopes@.take(i as int));
                assert(scopes@.take(i + 1).last() == scopes@[i as int]);
            }
            i += 1;
        }
        proof { assert(scopes@.take(i as int) =~= scopes@); }
        r
    }

    /// The selections of the scopes whose type may resolve to the object type `name`.
    fn matching(&self, scopes: &Vec<usize>, name: &String, Ghost(lo): Ghost<int>) -> (r: Vec<
        &Vec<(String, usize)>,
    >)
        requires
            self.inv(),
            forall|k: int|
                0 <= k < scopes@.len() ==> lo <= #[trigger] scopes@[k] < self.scopes_arena.nodes@.len(),
        ensures
            sels_model(r@) == matching_selections(
                *self.schema_definition,
                self.state().arena,
                scopes@,
                name@,
            ),
            forall|k: int, q: int|
                0 <= k < r@.len() && 0 <= q < r@[k]@.len() ==> lo < (#[trigger] r@[k]@[q]).1
                    < self.scopes_arena.nodes@.len(),
    {
        let ghost arena = self.state().arena;
        let schema = self.schema_definition;
        let mut r: Vec<&Vec<(String, usize)>> = Vec::new();
        let mut i: usize = 0;
        while i < scopes.len()
            invariant
                i <= scopes.len(),
                self.inv(),
                arena == self.state().arena,
                schema == self.schema_definition,
                forall|k: int|
                    0 <= k < scopes@.len() ==> lo <= #[trigger] scopes@[k] < self.scopes_arena.nodes@.len(),
                sels_model(r@) == matching_selections(*schema, arena, scopes@.take(i as int), name@),
                forall|k: int, q: int|
                    0 <= k < r@.len() && 0 <= q < r@[k]@.len() ==> lo < (#[trigger] r@[k]@[q]).1
                        < self.scopes_arena.nodes@.len(),
            decreases scopes.len() - i,
        {
            let scope = scopes[i];
            let ts = &self.scopes_arena.nodes[scope].typed_selections;
            let ghost tm = arena[scope as int].typed_selections;
            proof {
                assert(tm == typed_model(ts@));
                assert(matching_selections(*schema, arena, scopes@.take(i as int), name@) + typed_matching(
                    *schema,
                    tm.take(0),
                    name@,
                ) =~= matching_selections(*schema, arena, scopes@.take(i as int), name@));
            }
            let mut j: usize = 0;
            while j < ts.len()
                invariant
                    i < scopes.len(),
                    j <= ts.len(),
                    self.inv(),
                    scope == scopes@[i as int],
                    lo <= scope < self.scopes_arena.nodes@.len(),
                    arena == self.state().arena,
                    *ts == self.scopes_arena.nodes@[scope as int].typed_selections,
                    tm == typed_model(ts@),
                    sels_model(r@) == matching_selections(*schema, arena, scopes@.take(i as int), name@)
                        + typed_matching(*schema, tm.take(j as int), name@),
                    forall|k: int, q: int|
                        0 <= k < r@.len() && 0 <= q < r@[k]@.len() ==> lo < (#[trigger] r@[k]@[q]).1
                            < self.scopes_arena.nodes@.len(),
                decreases ts.len() - j,
            {
                let names = schema.possible_type_names(ts[j].type_index);
                proof {
                    assert(tm.take(j + 1).drop_last() =~= tm.take(j as int));
                    assert(tm.take(j + 1).last() == tm[j as int]);
                    assert(tm[j as int] == ts@[j as int].model());
                }
                if contains_string(&names, name) {
                    let inner: &Vec<(String, usize)> = &ts[j].inner_selection;
                    let ghost before = r@;
                    r.push(inner);
                    proof {
                        assert(sels_model(r@) =~= sels_model(before).push(inner_model(inner@)));
                        assert forall|k: int, q: int|
                            0 <= k < r@.len() && 0 <= q < r@[k]@.len() implies lo < (
                        #[trigger] r@[k]@[q]).1 < self.scopes_arena.nodes@.len() by {
                            if k == before.len() {
                                assert(inner_model(inner@)[q] == (inner@[q].0@, inner@[q].1));
                                assert(arena[scope as int].typed_selections[j as int].1[q] == (
                                inner@[q].0@, inner@[q].1));
                            } else {
                                assert(r@[k] == before[k]);
                            }
                        }
                    }
                }
                j += 1;
            }
            proof {
                assert(tm.take(j as int) =~= tm);
                assert(scopes@.take(i + 1).drop_last() =~= scopes@.take(i as int));
                assert(scopes@.take(i + 1).last() == scopes@[i as int]);
            }
            i += 1;
        }
        proof { assert(scopes@.take(i as int) =~= scopes@); }
        r
    }

    /// The cost of a set of scopes (see `scopes_cost`), saturated.
    fn merged_max_complexity_for_scopes(&self, scopes: &Vec<usize>, Ghost(lo): Ghost<int>) -> (r:
        usize)
        requires
            self.inv(),
            0 <= lo,
            forall|k: int|
                0 <= k < scopes@.len() ==> lo <= #[trigger] scopes@[k] < self.scopes_arena.nodes@.len(),
        ensures
            r == saturate(scopes_cost(*self.schema_definition, self.state().arena, scopes@, lo)),
        decreases self.scopes_arena.nodes@.len() - lo, 1int,
    {
        let ghost arena = self.state().arena;
        let ghost schema = *self.schema_definition;
        if scopes.len() == 0 {
            return 0;
        }
        proof { assert(lo <= scopes@[0] < arena.len()); }
        let candidates = self.collect_candidates(scopes);
        let ghost cm = strings_model(candidates@);
        let mut seen: Vec<String> = Vec::new();
        let mut best: usize = 0;
        let mut i: usize = 0;
        while i < candidates.len()
            invariant
                i <= candidates.len(),
                self.inv(),
                0 <= lo < arena.len(),
                arena == self.state().arena,
                schema == *self.schema_definition,
                forall|k: int|
                    0 <= k < scopes@.len() ==> lo <= #[trigger] scopes@[k] < self.scopes_arena.nodes@.len(),
                cm == strings_model(candidates@),
                best == saturate(names_cost(schema, arena, scopes@, cm.take(i as int), lo)),
                forall|k: int| 0 <= k < seen@.len() ==> cm.take(i as int).contains(#[trigger] seen@[k]@),
            decreases candidates.len() - i,
        {
            let name = &candidates[i];
            let ghost previous = names_cost(schema, arena, scopes@, cm.take(i as int), lo);
            let ghost this = name_cost(schema, arena, scopes@, name@, lo);
            proof {
                assert(cm[i as int] == name@);
                assert(cm.take(i + 1).drop_last() =~= cm.take(i as int));
                assert(cm.take(i + 1).last() == cm[i as int]);
                assert(names_cost(schema, arena, scopes@, cm.take(i + 1), lo) == if this > previous {
                    this
                } else {
                    previous
                });
            }
            if !contains_string(&seen, name) {
                let sels = self.matching(scopes, name, Ghost(lo));
                let c = self.merged_max_complexity_for_selections(&sels, Ghost(lo));
                proof { assert(c == saturate(this)); }
                if c > best {
                    best = c;
                }
                let ghost before = seen@;
                seen.push(name.clone());
                proof {
                    assert forall|k: int| 0 <= k < seen@.len() implies cm.take(i + 1).contains(
                        #[trigger] seen@[k]@,
                    ) by {
                        if k < before.len() {
                            assert(seen@[k] == before[k]);
                            let w = choose|w: int| 0 <= w < i && cm.take(i as int)[w] == before[k]@;
                            assert(cm.take(i + 1)[w] == before[k]@);
                        } else {
                            assert(cm.take(i + 1)[i as int] == name@);
                        }
                    }
                }
            } else {
                proof {
                    let k = choose|k: int| 0 <= k < strings_model(seen@).len() && strings_model(seen@)[k] == name@;
                    assert(strings_model(seen@)[k] == seen@[k]@);
                    assert(cm.take(i as int).contains(seen@[k]@));
                    let w = choose|w: int| 0 <= w < i && cm.take(i as int)[w] == seen@[k]@;
                    lemma_names_cost_ge(schema, arena, scopes@, cm.take(i as int), lo, w);
                    assert(this <= previous);
                    assert forall|k2: int| 0 <= k2 < seen@.len() implies cm.take(i + 1).contains(
                        #[trigger] seen@[k2]@,
                    ) by {
                        let w2 = choose|w2: int| 0 <= w2 < i && cm.take(i as int)[w2] == seen@[k2]@;
                        assert(cm.take(i + 1)[w2] == seen@[k2]@);
                    }
                }
            }
            i += 1;
        }
        proof { assert(cm.take(i as int) =~= cm); }
        best
    }

    /// The summed cost of the response keys of a set of selections, saturated.
    fn merged_max_complexity_for_selections(
        &self,
        sels: &Vec<&Vec<(String, usize)>>,
        Ghost(lo): Ghost<int>,
    ) -> (r: usize)
        requires
            self.inv(),
            0 <= lo < self.scopes_arena.nodes@.len(),
            forall|k: int, q: int|
                0 <= k < sels@.len() && 0 <= q < sels@[k]@.len() ==> lo < (#[trigger] sels@[k]@[q]).1
                    < self.scopes_arena.nodes@.len(),
        ensures
            r == saturate(
                keys_cost(
                    *self.schema_definition,
                    self.state().arena,
                    sels_model(sels@),
                    dedup(all_keys(sels_model(sels@))),
                    lo,
                ),
            ),
        decreases self.scopes_arena.nodes@.len() - lo, 0int,
    {
        let ghost arena = self.state().arena;
        let ghost schema = *self.schema_definition;
        let ghost sm = sels_model(sels@);
        let keys = unique_keys(sels);
        let ghost km = strings_model(keys@);
        let mut total: usize = 0;
        let mut i: usize = 0;
        while i < keys.len()
            invariant
                i <= keys.len(),
                self.inv(),
                0 <= lo < arena.len(),
                arena == self.state().arena,
                arena.len() == self.scopes_arena.nodes@.len(),
                schema == *self.schema_definition,
                sm == sels_model(sels@),
                km == strings_model(keys@),
                forall|k: int, q: int|
                    0 <= k < sels@.len() && 0 <= q < sels@[k]@.len() ==> lo < (#[trigger] sels@[k]@[q]).1
                        < self.scopes_arena.nodes@.len(),
                total == saturate(keys_cost(schema, arena, sm, km.take(i as int), lo)),
            decreases keys.len() - i,
        {
            let key = &keys[i];
            let mut base: usize = 0;
            let mut multiplier: usize = 0;
            let mut composite: Vec<usize> = Vec::new();
            let mut j: usize = 0;
            while j < sels.len()
                invariant
                    j <= sels.len(),
                    self.inv(),
                    0 <= lo < arena.len(),
                    arena == self.state().arena,
                    arena.len() == self.scopes_arena.nodes@.len(),
                    sm == sels_model(sels@),
                    forall|k: int, q: int|
                        0 <= k < sels@.len() && 0 <= q < sels@[k]@.len() ==> lo < (
                        #[trigger] sels@[k]@[q]).1 < self.scopes_arena.nodes@.len(),
                    base == key_cost_max(arena, sm.take(j as int), key@),
                    multiplier == key_multiplier_max(arena, sm.take(j as int), key@),
                    composite@ == composite_children(arena, sm.take(j as int), key@),
                    forall|k: int|
                        0 <= k < composite@.len() ==> lo + 1 <= #[trigger] composite@[k] < arena.len(),
                decreases sels.len() - j,
            {
                let sel: &Vec<(String, usize)> = sels[j];
                proof {
                    assert(sm[j as int] == inner_model(sel@));
                    assert(sm.take(j + 1).drop_last() =~= sm.take(j as int));
                    assert(sm.take(j + 1).last() == sm[j as int]);
                }
                match find_key(sel, key) {
                    Some(q) => {
                        let child = sel[q].1;
                        proof {
                            assert(sels@[j as int]@[q as int] == sel@[q as int]);
                            assert(inner_model(sel@)[q as int] == (sel@[q as int].0@, child));
                        }
                        let scope = &self.scopes_arena.nodes[child];
                        proof { assert(arena[child as int] == scope.model()); }
                        if scope.cost > base {
                            base = scope.cost;
                        }
                        if scope.multiplier > multiplier {
                            multiplier = scope.multiplier;
                        }
                        if scope.typed_selections.len() > 0 {
                            composite.push(child);
                        }
                    },
                    None => {},
                }
                j += 1;
            }
            proof {
                assert(sm.take(j as int) =~= sm);
                assert(km[i as int] == key@);
                assert(km.take(i + 1).drop_last() =~= km.take(i as int));
                assert(km.take(i + 1).last() == key@);
            }
            let children = self.merged_max_complexity_for_scopes(&composite, Ghost(lo + 1));
            let ghost exact_children = scopes_cost(schema, arena, composite@, lo + 1);
            let sum = base.saturating_add(children);
            proof {
                assert(sum == saturate(base as nat + exact_children));
                lemma_saturating_mul(base as nat + exact_children, multiplier);
            }
            let term = saturating_mul(sum, multiplier);
            total = total.saturating_add(term);
            i += 1;
        }
        proof { assert(km.take(i as int) =~= km); }
        total
    }

    /// The cost of the root scope.
    pub fn result(&self) -> (r: usize)
        requires
            self.inv(),
            state_cost(*self.schema_definition, self.state()) is Some,
        ensures
            r == saturate(state_cost(*self.schema_definition, self.state())->Some_0),
    {
        let root = match self.scopes_stack[0] {
            Some(root) => root,
            None => {
                return 0;
            },
        };
        let mut scopes: Vec<usize> = Vec::new();
        scopes.push(root.0);
        proof { assert(scopes@ =~= seq![root.0]); }
        self.merged_max_complexity_for_scopes(&scopes, Ghost(0))
    }
}

proof fn lemma_run_prefix<C: CostComputer>(
    cost_computer: C,
    schema: SchemaDefinition,
    events: Seq<Event>,
    k: int,
)
    requires
        0 <= k <= events.len(),
        run(cost_computer, schema, events) is Some,
    ensures
        run(cost_computer, schema, events.take(k)) is Some,
    decreases events.len(),
{
    if k == events.len() {
        assert(events.take(k) =~= events);
    } else {
        lemma_run_prefix(cost_computer, schema, events.drop_last(), k);
        assert(events.drop_last().take(k) =~= events.take(k));
    }
}

/// A field whose response name the parent scope has already registered for the same
/// type is costed once: its visit adds no scope, enters the scope registered before,
/// which keeps the larger of its cost and the field's, and takes the multiplier that
/// the parent gives the field.
pub proof fn lemma_repeated_path_costed_once<C: CostComputer>(
    cost_computer: C,
    schema: SchemaDefinition,
    state: CostState<C::FieldMultipliers>,
    field: Field,
    field_definition: FieldDefinition,
    scoped_type: usize,
    p: NodeId,
    tp: int,
    q: int,
)
    requires
        state_wf(state),
        state.arena.len() <= usize::MAX,
        state.stack.len() > 0,
        state.stack.last() == Some(p),
        !(cost_computer.spec_cost_for_field_definition(field_definition) == 0 && !base_is_composite(
            schema,
            field_definition.type_ref,
        )),
        p.0 < state.arena.len(),
        type_position(state.arena[p.0 as int].typed_selections, scoped_type) == Some(tp),
        key_position(state.arena[p.0 as int].typed_selections[tp].1, spec_response_name(field)) == Some(q),
    ensures
        ({
            let parent = state.arena[p.0 as int];
            let k = parent.typed_selections[tp].1[q].1;
            let cost = cost_computer.spec_cost_for_field_definition(field_definition);
            match visit_step(cost_computer, schema, state, field, field_definition, scoped_type) {
                Some(after) => {
                    &&& k < state.arena.len()
                    &&& after.arena.len() == state.arena.len()
                    &&& after.stack == state.stack.push(Some(NodeId(k)))
                    &&& after.arena[k as int].cost == max_usize(state.arena[k as int].cost, cost)
                    &&& after.arena[k as int].multiplier == parent.field_multipliers.spec_multiplier_for_field(field)
                    &&& forall|i: int| 0 <= i < state.arena.len() && i != k ==> after.arena[i] == state.arena[i]
                },
                None => false,
            }
        }),
{
    let parent = state.arena[p.0 as int];
    let ts = parent.typed_selections;
    lemma_first_index(ts, has_type(scoped_type));
    lemma_first_index(ts[tp].1, has_key(spec_response_name(field)));
    assert(0 <= tp < ts.len() && 0 <= q < ts[tp].1.len());
    let k = ts[tp].1[q].1;
    assert(p.0 < k < state.arena.len());
    let arena1 = state.arena.update(
        p.0 as int,
        ScopeModel {
            cost: parent.cost,
            multiplier: parent.multiplier,
            typed_selections: ts,
            field_multipliers: parent.field_multipliers,
        },
    );
    assert(arena1 =~= state.arena);
}

/// A visit that must register its field is defined exactly when the innermost field
/// being visited holds a scope.
proof fn lemma_visit_step_defined<C: CostComputer>(
    cost_computer: C,
    schema: SchemaDefinition,
    state: CostState<C::FieldMultipliers>,
    field: Field,
    field_definition: FieldDefinition,
    scoped_type: usize,
)
    requires
        state_wf(state),
        state.arena.len() <= usize::MAX,
        !(cost_computer.spec_cost_for_field_definition(field_definition) == 0 && !base_is_composite(
            schema,
            field_definition.type_ref,
        )),
    ensures
        (visit_step(cost_computer, schema, state, field, field_definition, scoped_type) is Some)
            == (state.stack.len() > 0 && state.stack.last() is Some),
{
    if state.stack.len() > 0 {
        let k = state.stack.len() - 1;
        assert(state.stack.last() == state.stack[k]);
        if let Some(p) = state.stack.last() {
            assert(p.0 < state.arena.len());
            let parent = state.arena[p.0 as int];
            let next = state.arena.len() as usize;
            assert(selections_within(parent.typed_selections, p.0 as int, next as int)) by {
                assert forall|a: int, b: int|
                    0 <= a < parent.typed_selections.len() && 0 <= b < parent.typed_selections[a].1.len()
                    implies p.0 < (#[trigger] parent.typed_selections[a].1[b]).1 < next by {
                    assert(state.arena[p.0 as int].typed_selections[a].1[b] == parent.typed_selections[a].1[b]);
                }
            }
            lemma_register_within(
                parent.typed_selections,
                scoped_type,
                spec_response_name(field),
                next,
                p.0 as int,
            );
        }
    }
}

impl<'a, C: CostComputer> ComplexityCost<'a, C> {
    /// The complexity of a walk (see `complexity`), saturated at `usize::MAX`.
    pub fn analyze_events(
        events: &Vec<Event>,
        schema_definition: &'a SchemaDefinition,
        cost_computer: C,
    ) -> (r: usize)
        requires
            complexity(cost_computer, *schema_definition, events@) is Some,
        ensures
            r == saturate(complexity(cost_computer, *schema_definition, events@)->Some_0),
    {
        let ghost cc = cost_computer;
        let ghost schema = *schema_definition;
        let mut analyzer = ComplexityCost::new(schema_definition, cost_computer);
        let mut i: usize = 0;
        while i < events.len()
            invariant
                i <= events.len(),
                analyzer.inv(),
                analyzer.schema_definition == schema_definition,
                analyzer.cost_computer == cc,
                schema == *schema_definition,
                run(cc, schema, events@) is Some,
                run(cc, schema, events@.take(i as int)) == Some(analyzer.state()),
            decreases events.len() - i,
        {
            proof {
                lemma_run_prefix(cc, schema, events@, i + 1);
                assert(events@.take(i + 1).drop_last() =~= events@.take(i as int));
                assert(events@.take(i + 1).last() == events@[i as int]);
            }
            match &events[i] {
                Event::VisitField { field, field_definition, scoped_type, included } => {
                    analyzer.visit_field(field, field_definition, *scoped_type, *included);
                },
                Event::LeaveField { included, .. } => {
                    analyzer.leave_field(*included);
                },
                _ => {},
            }
            i += 1;
        }
        proof { assert(events@.take(i as int) =~= events@); }
        analyzer.into_output()
    }

    /// Whether the walk can take the event: `event_step` is defined on it.
    fn can_take(&self, event: &Event) -> (r: bool)
        requires
            self.inv(),
        ensures
            r == (event_step(self.cost_computer, *self.schema_definition, self.state(), *event) is Some),
    {
        match event {
            Event::VisitField { field, field_definition, scoped_type, included } => {
                if !*included {
                    return true;
                }
                let cost = self.cost_computer.cost_for_field_definition(field_definition);
                if cost == 0 && !base_type_is_composite(self.schema_definition, &field_definition.type_ref) {
                    return true;
                }
                let arena_len = self.scopes_arena.nodes.len();
                proof {
                    assert(self.state().arena.len() == arena_len);
                    lemma_visit_step_defined(
                        self.cost_computer,
                        *self.schema_definition,
                        self.state(),
                        **field,
                        **field_definition,
                        *scoped_type,
                    );
                }
                let n = self.scopes_stack.len();
                n > 0 && self.scopes_stack[n - 1].is_some()
            },
            Event::LeaveField { included, .. } => !*included || self.scopes_stack.len() > 0,
            _ => true,
        }
    }

    /// The complexity of a walk (see `complexity`), saturated at `usize::MAX`, or `None`
    /// where the walk visits a field that would need a scope below a leaf field, or
    /// leaves more fields than it visited.
    pub fn analyze_events_checked(
        events: &Vec<Event>,
        schema_definition: &'a SchemaDefinition,
        cost_computer: C,
    ) -> (r: Option<usize>)
        ensures
            match complexity(cost_computer, *schema_definition, events@) {
                Some(c) => r == Some(saturate(c)),
                None => r is None,
            },
    {
        let ghost cc = cost_computer;
        let ghost schema = *schema_definition;
        let mut analyzer = ComplexityCost::new(schema_definition, cost_computer);
        let mut i: usize = 0;
        while i < events.len()
            invariant
                i <= events.len(),
                analyzer.inv(),
                analyzer.schema_definition == schema_definition,
                analyzer.cost_computer == cc,
                schema == *schema_definition,
                cc == cost_computer,
                run(cc, schema, events@.take(i as int)) == Some(analyzer.state()),
            decreases events.len() - i,
        {
            proof {
                assert(events@.take(i + 1).drop_last() =~= events@.take(i as int));
                assert(events@.take(i + 1).last() == events@[i as int]);
            }
            if !analyzer.can_take(&events[i]) {
                proof {
                    assert(run(cc, schema, events@.take(i + 1)) is None);
                    if run(cc, schema, events@) is Some {
                        lemma_run_prefix(cc, schema, events@, i + 1);
                    }
                }
                return None;
            }
            match &events[i] {
                Event::VisitField { field, field_definition, scoped_type, included } => {
                    analyzer.visit_field(field, field_definition, *scoped_type, *included);
                },
                Event::LeaveField { included, .. } => {
                    analyzer.leave_field(*included);
                },
                _ => {},
            }
            i += 1;
        }
        proof { assert(events@.take(i as int) =~= events@); }
        if analyzer.scopes_stack.len() == 0 || analyzer.scopes_stack[0].is_none() {
            return None;
        }
        proof {
            assert(analyzer.state().stack[0] matches Some(n) ==> n.0 < analyzer.state().arena.len());
        }
        Some(analyzer.result())
    }

    /// The complexity of the chosen operation of the document, or `Ok(None)` where the
    /// walk visits a field that would need a scope below a leaf field (see
    /// `analyze_events_checked`).
    pub fn analyze_checked(
        executable_document: &'a ExecutableDocument,
        schema_definition: &'a SchemaDefinition,
        operation_name: Option<&String>,
        variable_values: &'a VariableValues,
        cost_computer: C,
    ) -> (r: Result<Option<usize>, OperationResolutionError>)
        requires
            schema_definition.wf(),
        ensures
            match r {
                Ok(c) => spec_resolved_events(
                    executable_document,
                    schema_definition,
                    spec_name_of(operation_name),
                    variable_values,
                ) matches Some(events) && match complexity(cost_computer, *schema_definition, events) {
                    Some(x) => c == Some(saturate(x)),
                    None => c is None,
                },
                Err(e) => spec_resolved_events(
                    executable_document,
                    schema_definition,
                    spec_name_of(operation_name),
                    variable_values,
                ) is None && spec_resolution_error(operation_name, e),
            },
    {
        let events = match Orchestrator::analyze(
            executable_document,
            schema_definition,
            operation_name,
            variable_values,
        ) {
            Ok(events) => events,
            Err(e) => return Err(e),
        };
        Ok(Self::analyze_events_checked(&events, schema_definition, cost_computer))
    }

    /// The complexity of the chosen operation of the document. The cost computer is
    /// built by the caller, for the operation it expects to be chosen.
    pub fn analyze(
        executable_document: &'a ExecutableDocument,
        schema_definition: &'a SchemaDefinition,
        operation_name: Option<&String>,
        variable_values: &'a VariableValues,
        cost_computer: C,
    ) -> (r: Result<usize, OperationResolutionError>)
        requires
            schema_definition.wf(),
            spec_resolved_events(
                executable_document,
                schema_definition,
                spec_name_of(operation_name),
                variable_values,
            ) matches Some(events) ==> complexity(cost_computer, *schema_definition, events) is Some,
        ensures
            match r {
                Ok(c) => spec_resolved_events(
                    executable_document,
                    schema_definition,
                    spec_name_of(operation_name),
                    variable_values,
                ) matches Some(events) && c == saturate(
                    complexity(cost_computer, *schema_definition, events)->Some_0,
                ),
                Err(e) => spec_resolved_events(
                    executable_document,
                    schema_definition,
                    spec_name_of(operation_name),
                    variable_values,
                ) is None && spec_resolution_error(operation_name, e),
            },
    {
        let events = match Orchestrator::analyze(
            executable_document,
            schema_definition,
            operation_name,
            variable_values,
        ) {
            Ok(events) => events,
            Err(e) => return Err(e),
        };
        Ok(Self::analyze_events(&events, schema_definition, cost_computer))
    }
}

impl<'a, C: CostComputer> Analyzer for ComplexityCost<'a, C> {
    type Output = usize;

    open spec fn ready(&self) -> bool {
        self.inv() && state_cost(*self.schema_definition, self.state()) is Some
    }

    /// The cost of the root scope, saturated at `usize::MAX`.
    fn into_output(self) -> (r: usize)
        ensures
            r == saturate(state_cost(*self.schema_definition, self.state())->Some_0),
    {
        self.result()
    }
}

} // verus!
