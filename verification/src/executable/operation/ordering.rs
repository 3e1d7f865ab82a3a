//! The order of a walk: the steps of the fields come first, then one step for each
//! variable definition of the operation, in the order the operation declares them.
use vstd::prelude::*;
use crate::document::{Field, Selection, VariableDefinition};
use crate::executable::operation::orchestrator::{
    Event, WalkContext, argument_events, inactive_count, lemma_inactive_count_update,
    variable_definition_events,
};
use crate::schema::{FieldDefinition, InputValueDefinition, field_index, spec_base_name, spec_fields_of};
use crate::value::{Argument, Directive};

verus! {

/// No step visits a variable definition.
pub open spec fn no_variable_visits<'a>(events: Seq<Event<'a>>) -> bool {
    forall|k: int| 0 <= k < events.len() ==> !((#[trigger] events[k]) is VisitVariableDefinition)
}

proof fn lemma_no_variable_visits_concat<'a>(a: Seq<Event<'a>>, b: Seq<Event<'a>>)
    requires
        no_variable_visits(a),
        no_variable_visits(b),
    ensures
        no_variable_visits(a + b),
{
    assert forall|k: int| 0 <= k < (a + b).len() implies !((#[trigger] (a + b)[k]) is VisitVariableDefinition) by {
        if k < a.len() {
            assert((a + b)[k] == a[k]);
        } else {
            assert((a + b)[k] == b[k - a.len()]);
        }
    }
}

proof fn lemma_argument_events_no_variables(args: Seq<Argument>, defs: Seq<InputValueDefinition>)
    ensures
        no_variable_visits(argument_events(args, defs)),
    decreases args.len(),
{
    if args.len() > 0 {
        lemma_argument_events_no_variables(args.drop_last(), defs);
        let last: Seq<Event> = match crate::schema::input_value_index(defs, args.last().name@) {
            Some(k) => seq![
                Event::VisitArgument { argument: &args.last(), input_value_definition: &defs[k] },
            ],
            None => Seq::empty(),
        };
        lemma_no_variable_visits_concat(argument_events(args.drop_last(), defs), last);
    }
}

proof fn lemma_directive_argument_events_no_variables<'a, 'v>(ctx: WalkContext<'a, 'v>, ds: Seq<Directive>)
    ensures
        no_variable_visits(ctx.directive_argument_events(ds)),
    decreases ds.len(),
{
    if ds.len() > 0 {
        lemma_directive_argument_events_no_variables(ctx, ds.drop_last());
        let last: Seq<Event<'a>> = match ctx.schema_definition.directive_index(ds.last().name@) {
            Some(k) => {
                lemma_argument_events_no_variables(
                    ds.last().arguments@,
                    ctx.schema_definition.directives@[k].arguments@,
                );
                argument_events(ds.last().arguments@, ctx.schema_definition.directives@[k].arguments@)
            },
            None => Seq::empty(),
        };
        lemma_no_variable_visits_concat(ctx.directive_argument_events(ds.drop_last()), last);
    }
}

proof fn lemma_selection_set_no_variables<'a, 'v>(
    ctx: WalkContext<'a, 'v>,
    selections: Seq<Selection>,
    ty: int,
    included: bool,
    active: Seq<bool>,
)
    ensures
        no_variable_visits(ctx.selection_set_events(selections, ty, included, active)),
    decreases inactive_count(active), selections,
{
    if selections.len() > 0 {
        lemma_selection_set_no_variables(ctx, selections.drop_last(), ty, included, active);
        lemma_selection_no_variables(ctx, selections.last(), ty, included, active);
        lemma_no_variable_visits_concat(
            ctx.selection_set_events(selections.drop_last(), ty, included, active),
            ctx.selection_events(selections.last(), ty, included, active),
        );
    }
}

proof fn lemma_selection_no_variables<'a, 'v>(
    ctx: WalkContext<'a, 'v>,
    selection: Selection,
    ty: int,
    included: bool,
    active: Seq<bool>,
)
    ensures
        no_variable_visits(ctx.selection_events(selection, ty, included, active)),
    decreases inactive_count(active), selection,
{
    match selection {
        Selection::Field(f) => match spec_fields_of(ctx.schema_definition.types@[ty].kind) {
            Some(fields) => match field_index(fields, f.name@) {
                Some(k) => lemma_field_no_variables(ctx, f, fields[k], ty, included, active),
                None => {},
            },
            None => {},
        },
        Selection::InlineFragment(i) => {
            let inc = ctx.field_included(included, i.directives@);
            let scoped = match i.type_condition {
                Some(tc) => ctx.schema_definition.type_index(tc@),
                None => Some(ty),
            };
            match scoped {
                Some(t) => lemma_selection_set_no_variables(ctx, i.selection_set@, t, inc, active),
                None => {},
            }
        },
        Selection::FragmentSpread(s) => {
            let inc = ctx.field_included(included, s.directives@);
            match ctx.executable_document.fragment_index(s.name@) {
                Some(k) => if 0 <= k < active.len() && !active[k] {
                    let fd = ctx.executable_document.fragment_definitions@[k];
                    match ctx.schema_definition.type_index(fd.type_condition@) {
                        Some(t) => {
                            lemma_inactive_count_update(active, k);
                            lemma_selection_set_no_variables(ctx, fd.selection_set@, t, inc, active.update(k, true));
                        },
                        None => {},
                    }
                },
                None => {},
            }
        },
    }
}

proof fn lemma_field_no_variables<'a, 'v>(
    ctx: WalkContext<'a, 'v>,
    field: Field,
    field_definition: FieldDefinition,
    ty: int,
    included: bool,
    active: Seq<bool>,
)
    ensures
        no_variable_visits(ctx.field_events(field, field_definition, ty, included, active)),
    decreases inactive_count(active), field,
{
    let inc = ctx.field_included(included, field.directives@);
    let visit: Seq<Event<'a>> = seq![
        Event::VisitField {
            field: &field,
            field_definition: &field_definition,
            scoped_type: ty as usize,
            included: inc,
        },
    ];
    let leave: Seq<Event<'a>> = seq![
        Event::LeaveField {
            field: &field,
            field_definition: &field_definition,
            scoped_type: ty as usize,
            included: inc,
        },
    ];
    let args = argument_events(field.arguments@, field_definition.arguments@);
    let dargs = ctx.directive_argument_events(field.directives@);
    let children = match ctx.schema_definition.type_index(spec_base_name(field_definition.type_ref)) {
        Some(t) => ctx.selection_set_events(field.selection_set@, t, inc, active),
        None => Seq::empty(),
    };
    lemma_argument_events_no_variables(field.arguments@, field_definition.arguments@);
    lemma_directive_argument_events_no_variables(ctx, field.directives@);
    match ctx.schema_definition.type_index(spec_base_name(field_definition.type_ref)) {
        Some(t) => {
            assert(decreases_to!(field => field.selection_set));
            lemma_selection_set_no_variables(ctx, field.selection_set@, t, inc, active);
        },
        None => {},
    }
    assert(no_variable_visits(visit));
    assert(no_variable_visits(leave));
    lemma_no_variable_visits_concat(visit, args);
    lemma_no_variable_visits_concat(visit + args, dargs);
    lemma_no_variable_visits_concat(visit + args + dargs, children);
    lemma_no_variable_visits_concat(visit + args + dargs + children, leave);
    assert(ctx.field_events(field, field_definition, ty, included, active)
        == visit + args + dargs + children + leave);
}

/// The step that visits variable definition `vd`.
pub open spec fn variable_visit<'a>(vd: &'a VariableDefinition) -> Event<'a> {
    Event::VisitVariableDefinition { variable_definition: vd }
}

/// `events` ends with one visit of each of `vds`, in their order, and no step before
/// those visits a variable definition.
pub open spec fn ends_with_variable_visits<'a>(events: Seq<Event<'a>>, vds: Seq<VariableDefinition>) -> bool {
    let n = events.len() - vds.len();
    &&& n >= 0
    &&& forall|k: int| 0 <= k < vds.len() ==> #[trigger] events[n + k] == variable_visit(&vds[k])
    &&& no_variable_visits(events.take(n))
}

/// The schema defines the root type of the operation's kind.
pub open spec fn has_root_type<'a, 'v>(ctx: WalkContext<'a, 'v>) -> bool {
    match ctx.root_type_name() {
        Some(r) => ctx.schema_definition.type_index(r) is Some,
        None => false,
    }
}

proof fn lemma_variable_definition_events_in_order(vds: Seq<VariableDefinition>)
    ensures
        variable_definition_events(vds).len() == vds.len(),
        forall|k: int|
            0 <= k < vds.len() ==> #[trigger] variable_definition_events(vds)[k] == variable_visit(&vds[k]),
    decreases vds.len(),
{
    if vds.len() > 0 {
        lemma_variable_definition_events_in_order(vds.drop_last());
        let front = variable_definition_events(vds.drop_last());
        let last: Seq<Event> = seq![variable_visit(&vds.last())];
        assert forall|k: int| 0 <= k < vds.len() implies #[trigger] variable_definition_events(vds)[k]
            == variable_visit(&vds[k]) by {
            if k < vds.len() - 1 {
                assert((front + last)[k] == front[k]);
                assert(vds.drop_last()[k] == vds[k]);
            } else {
                assert((front + last)[k] == last[0]);
            }
        }
    }
}

/// The walk of an operation first takes the steps of its fields (none where the
/// schema has no root type for the operation's kind), and then visits each variable
/// definition of the operation once, in the order the operation declares them; no
/// earlier step visits a variable definition.
pub proof fn lemma_operation_events_order<'a, 'v>(ctx: WalkContext<'a, 'v>)
    ensures
        ends_with_variable_visits(ctx.operation_events(), ctx.operation_definition.variable_definitions@),
        !has_root_type(ctx) ==> ctx.operation_events().len() == ctx.operation_definition.variable_definitions@.len(),
{
    let active = Seq::new(ctx.executable_document.fragment_definitions@.len(), |i: int| false);
    let root: Seq<Event<'a>> = match ctx.root_type_name() {
        Some(r) => match ctx.schema_definition.type_index(r) {
            Some(t) => ctx.selection_set_events(ctx.operation_definition.selection_set@, t, true, active),
            None => Seq::empty(),
        },
        None => Seq::empty(),
    };
    match ctx.root_type_name() {
        Some(r) => match ctx.schema_definition.type_index(r) {
            Some(t) => lemma_selection_set_no_variables(ctx, ctx.operation_definition.selection_set@, t, true, active),
            None => {},
        },
        None => {},
    }
    let vds = ctx.operation_definition.variable_definitions@;
    let tail = variable_definition_events(vds);
    lemma_variable_definition_events_in_order(vds);
    let events = ctx.operation_events();
    assert(events == root + tail);
    assert(events.take(root.len() as int) =~= root);
    assert forall|k: int| 0 <= k < vds.len() implies #[trigger] events[root.len() + k] == variable_visit(&vds[k]) by {
        assert((root + tail)[root.len() + k] == tail[k]);
    }
}

} // verus!
