//! Every field visit of a walk is matched by a leave of the same field, with the same
//! definition, scoped type and inclusion, after the steps of the fields below it.
use vstd::prelude::*;
use crate::document::{Field, Selection};
use crate::executable::operation::nesting::{
    balanced, flat, lemma_argument_events_flat, lemma_balanced_concat,
    lemma_directive_argument_events_flat, lemma_flat_depth, lemma_selection_set_balanced,
};
use crate::executable::operation::orchestrator::{
    Event, WalkContext, argument_events, inactive_count, lemma_inactive_count_update,
    variable_definition_events,
};
use crate::schema::{FieldDefinition, InputValueDefinition, field_index, spec_base_name, spec_fields_of};
use crate::value::{Argument, Directive};

verus! {

/// The leave step that matches a field visit.
pub open spec fn leave_of<'a>(e: Event<'a>) -> Event<'a> {
    match e {
        Event::VisitField { field, field_definition, scoped_type, included } => Event::LeaveField {
            field,
            field_definition,
            scoped_type,
            included,
        },
        _ => e,
    }
}

/// Each field visit is followed by its matching leave, and the steps between them are
/// balanced: they are those of the fields below it.
pub open spec fn well_nested<'a>(events: Seq<Event<'a>>) -> bool {
    forall|p: int|
        0 <= p < events.len() && (#[trigger] events[p]) is VisitField ==> exists|q: int|
            p < q < events.len() && events[q] == leave_of(events[p]) && balanced(
                events.subrange(p + 1, q),
            )
}

/// No step visits a field.
pub open spec fn no_field_visits<'a>(events: Seq<Event<'a>>) -> bool {
    forall|k: int| 0 <= k < events.len() ==> !((#[trigger] events[k]) is VisitField)
}

proof fn lemma_no_field_visits_concat<'a>(a: Seq<Event<'a>>, b: Seq<Event<'a>>)
    requires
        no_field_visits(a),
        no_field_visits(b),
    ensures
        no_field_visits(a + b),
{
    assert forall|k: int| 0 <= k < (a + b).len() implies !((#[trigger] (a + b)[k]) is VisitField) by {
        if k < a.len() {
            assert((a + b)[k] == a[k]);
        } else {
            assert((a + b)[k] == b[k - a.len()]);
        }
    }
}

proof fn lemma_argument_events_no_fields(args: Seq<Argument>, defs: Seq<InputValueDefinition>)
    ensures
        no_field_visits(argument_events(args, defs)),
    decreases args.len(),
{
    if args.len() > 0 {
        lemma_argument_events_no_fields(args.drop_last(), defs);
        let last: Seq<Event> = match crate::schema::input_value_index(defs, args.last().name@) {
            Some(k) => seq![
                Event::VisitArgument { argument: &args.last(), input_value_definition: &defs[k] },
            ],
            None => Seq::empty(),
        };
        lemma_no_field_visits_concat(argument_events(args.drop_last(), defs), last);
    }
}

proof fn lemma_directive_argument_events_no_fields<'a, 'v>(ctx: WalkContext<'a, 'v>, ds: Seq<Directive>)
    ensures
        no_field_visits(ctx.directive_argument_events(ds)),
    decreases ds.len(),
{
    if ds.len() > 0 {
        lemma_directive_argument_events_no_fields(ctx, ds.drop_last());
        let last: Seq<Event<'a>> = match ctx.schema_definition.directive_index(ds.last().name@) {
            Some(k) => {
                lemma_argument_events_no_fields(
                    ds.last().arguments@,
                    ctx.schema_definition.directives@[k].arguments@,
                );
                argument_events(ds.last().arguments@, ctx.schema_definition.directives@[k].arguments@)
            },
            None => Seq::empty(),
        };
        lemma_no_field_visits_concat(ctx.directive_argument_events(ds.drop_last()), last);
    }
}

proof fn lemma_variable_definition_events_no_fields(vds: Seq<crate::document::VariableDefinition>)
    ensures
        no_field_visits(variable_definition_events(vds)),
    decreases vds.len(),
{
    if vds.len() > 0 {
        lemma_variable_definition_events_no_fields(vds.drop_last());
        let last: Seq<Event> = seq![Event::VisitVariableDefinition { variable_definition: &vds.last() }];
        lemma_no_field_visits_concat(variable_definition_events(vds.drop_last()), last);
    }
}

proof fn lemma_well_nested_concat<'a>(a: Seq<Event<'a>>, b: Seq<Event<'a>>)
    requires
        well_nested(a),
        well_nested(b),
    ensures
        well_nested(a + b),
{
    let c = a + b;
    assert forall|p: int| 0 <= p < c.len() && (#[trigger] c[p]) is VisitField implies exists|q: int|
        p < q < c.len() && c[q] == leave_of(c[p]) && balanced(c.subrange(p + 1, q)) by {
        if p < a.len() {
            assert(c[p] == a[p]);
            let q = choose|q: int| p < q < a.len() && a[q] == leave_of(a[p]) && balanced(a.subrange(p + 1, q));
            assert(c[q] == a[q]);
            assert(c.subrange(p + 1, q) =~= a.subrange(p + 1, q));
        } else {
            let pb = p - a.len();
            assert(c[p] == b[pb]);
            let q = choose|q: int| pb < q < b.len() && b[q] == leave_of(b[pb]) && balanced(b.subrange(pb + 1, q));
            assert(c[q + a.len()] == b[q]);
            assert(c.subrange(p + 1, q + a.len()) =~= b.subrange(pb + 1, q));
        }
    }
}

proof fn lemma_no_fields_well_nested<'a>(a: Seq<Event<'a>>)
    requires
        no_field_visits(a),
    ensures
        well_nested(a),
{
}

proof fn lemma_selection_set_well_nested<'a, 'v>(
    ctx: WalkContext<'a, 'v>,
    selections: Seq<Selection>,
    ty: int,
    included: bool,
    active: Seq<bool>,
)
    ensures
        well_nested(ctx.selection_set_events(selections, ty, included, active)),
    decreases inactive_count(active), selections,
{
    if selections.len() > 0 {
        lemma_selection_set_well_nested(ctx, selections.drop_last(), ty, included, active);
        lemma_selection_well_nested(ctx, selections.last(), ty, included, active);
        lemma_well_nested_concat(
            ctx.selection_set_events(selections.drop_last(), ty, included, active),
            ctx.selection_events(selections.last(), ty, included, active),
        );
    }
}

proof fn lemma_selection_well_nested<'a, 'v>(
    ctx: WalkContext<'a, 'v>,
    selection: Selection,
    ty: int,
    included: bool,
    active: Seq<bool>,
)
    ensures
        well_nested(ctx.selection_events(selection, ty, included, active)),
    decreases inactive_count(active), selection,
{
    match selection {
        Selection::Field(f) => match spec_fields_of(ctx.schema_definition.types@[ty].kind) {
            Some(fields) => match field_index(fields, f.name@) {
                Some(k) => lemma_field_well_nested(ctx, f, fields[k], ty, included, active),
                None => {},
            },
            None => {},
        },
        Selection::InlineFragment(i) => {
            let inc = ctx.field_included(included, i.directives@);
            let scoped = match i.type_condition {
                Some(tc) => ctx.schema_definition.type_index(tc@),
                None => Some(ty),
            };
            match scoped {
                Some(t) => lemma_selection_set_well_nested(ctx, i.selection_set@, t, inc, active),
                None => {},
            }
        },
        Selection::FragmentSpread(s) => {
            let inc = ctx.field_included(included, s.directives@);
            match ctx.executable_document.fragment_index(s.name@) {
                Some(k) => if 0 <= k < active.len() && !active[k] {
                    let fd = ctx.executable_document.fragment_definitions@[k];
                    match ctx.schema_definition.type_index(fd.type_condition@) {
                        Some(t) => {
                            lemma_inactive_count_update(active, k);
                            lemma_selection_set_well_nested(ctx, fd.selection_set@, t, inc, active.update(k, true));
                        },
                        None => {},
                    }
                },
                None => {},
            }
        },
    }
}

proof fn lemma_field_well_nested<'a, 'v>(
    ctx: WalkContext<'a, 'v>,
    field: Field,
    field_definition: FieldDefinition,
    ty: int,
    included: bool,
    active: Seq<bool>,
)
    ensures
        well_nested(ctx.field_events(field, field_definition, ty, included, active)),
    decreases inactive_count(active), field,
{
    let inc = ctx.field_included(included, field.directives@);
    let visit = Event::VisitField {
        field: &field,
        field_definition: &field_definition,
        scoped_type: ty as usize,
        included: inc,
    };
    let args = argument_events(field.arguments@, field_definition.arguments@);
    let dargs = ctx.directive_argument_events(field.directives@);
    let children = match ctx.schema_definition.type_index(spec_base_name(field_definition.type_ref)) {
        Some(t) => ctx.selection_set_events(field.selection_set@, t, inc, active),
        None => Seq::empty(),
    };
    lemma_argument_events_no_fields(field.arguments@, field_definition.arguments@);
    lemma_directive_argument_events_no_fields(ctx, field.directives@);
    lemma_no_field_visits_concat(args, dargs);
    lemma_argument_events_flat(field.arguments@, field_definition.arguments@);
    lemma_directive_argument_events_flat(ctx, field.directives@);
    lemma_flat_depth(args);
    lemma_flat_depth(dargs);
    lemma_balanced_concat(args, dargs);
    match ctx.schema_definition.type_index(spec_base_name(field_definition.type_ref)) {
        Some(t) => {
            assert(decreases_to!(field => field.selection_set));
            lemma_selection_set_well_nested(ctx, field.selection_set@, t, inc, active);
            lemma_selection_set_balanced(ctx, field.selection_set@, t, inc, active);
        },
        None => {
            lemma_flat_depth(children);
        },
    }
    lemma_balanced_concat(args + dargs, children);
    let middle = args + dargs + children;
    lemma_well_nested_concat(args + dargs, children);
    lemma_wrap_well_nested(visit, middle);
    assert(seq![visit] + middle + seq![leave_of(visit)] =~= ctx.field_events(
        field,
        field_definition,
        ty,
        included,
        active,
    ));
}

/// A field visit, balanced and well nested steps, then the matching leave.
proof fn lemma_wrap_well_nested<'a>(visit: Event<'a>, middle: Seq<Event<'a>>)
    requires
        visit is VisitField,
        well_nested(middle),
        balanced(middle),
    ensures
        well_nested(seq![visit] + middle + seq![leave_of(visit)]),
{
    let all = seq![visit] + middle + seq![leave_of(visit)];
    assert forall|p: int| 0 <= p < all.len() && (#[trigger] all[p]) is VisitField implies exists|q: int|
        p < q < all.len() && all[q] == leave_of(all[p]) && balanced(all.subrange(p + 1, q)) by {
        if p == 0 {
            assert(all[0] == visit);
            assert(all[all.len() - 1] == leave_of(visit));
            assert(all.subrange(1, all.len() - 1) =~= middle);
        } else {
            assert(p < all.len() - 1);
            assert(all[p] == middle[p - 1]);
            let q = choose|q: int|
                p - 1 < q < middle.len() && middle[q] == leave_of(middle[p - 1]) && balanced(
                    middle.subrange(p, q),
                );
            assert(all[q + 1] == middle[q]);
            assert(all.subrange(p + 1, q + 1) =~= middle.subrange(p, q));
        }
    }
}

/// In the walk of an operation, every field visited is left again, with the same
/// field, definition, scoped type and inclusion, after the balanced steps of the
/// fields below it.
pub proof fn lemma_operation_events_well_nested<'a, 'v>(ctx: WalkContext<'a, 'v>)
    ensures
        well_nested(ctx.operation_events()),
{
    let active = Seq::new(ctx.executable_document.fragment_definitions@.len(), |i: int| false);
    let root: Seq<Event<'a>> = match ctx.root_type_name() {
        Some(n) => match ctx.schema_definition.type_index(n) {
            Some(t) => ctx.selection_set_events(ctx.operation_definition.selection_set@, t, true, active),
            None => Seq::empty(),
        },
        None => Seq::empty(),
    };
    match ctx.root_type_name() {
        Some(n) => match ctx.schema_definition.type_index(n) {
            Some(t) => lemma_selection_set_well_nested(ctx, ctx.operation_definition.selection_set@, t, true, active),
            None => {},
        },
        None => {},
    }
    let vds = variable_definition_events(ctx.operation_definition.variable_definitions@);
    lemma_variable_definition_events_no_fields(ctx.operation_definition.variable_definitions@);
    lemma_well_nested_concat(root, vds);
}

} // verus!
