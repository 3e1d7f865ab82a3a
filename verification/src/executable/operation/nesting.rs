//! How the fields of a walk nest: every included field that is visited is left again,
//! after the fields below it.
use vstd::prelude::*;
use crate::document::{Field, Selection};
use crate::executable::operation::orchestrator::{
    Event, WalkContext, argument_events, inactive_count, lemma_inactive_count_update,
    variable_definition_events,
};
use crate::schema::{FieldDefinition, field_index, spec_base_name, spec_fields_of};
use crate::value::{Argument, Directive};

verus! {

/// +1 for visiting an included field, -1 for leaving one, 0 otherwise.
pub open spec fn depth_change(e: Event) -> int {
    match e {
        Event::VisitField { included, .. } => if included { 1 } else { 0 },
        Event::LeaveField { included, .. } => if included { -1 } else { 0 },
        _ => 0,
    }
}

/// The number of included fields entered and not yet left after `events`.
pub open spec fn depth_after(events: Seq<Event>) -> int
    decreases events.len(),
{
    if events.len() == 0 {
        0
    } else {
        depth_after(events.drop_last()) + depth_change(events.last())
    }
}

/// The greatest depth reached at any point of `events`.
pub open spec fn max_depth(events: Seq<Event>) -> int
    decreases events.len(),
{
    if events.len() == 0 {
        0
    } else {
        let d = depth_after(events);
        let m = max_depth(events.drop_last());
        if d > m { d } else { m }
    }
}

/// No prefix leaves more included fields than it visited, and the whole sequence
/// leaves all it visited.
pub open spec fn balanced(events: Seq<Event>) -> bool {
    &&& forall|k: int| 0 <= k <= events.len() ==> depth_after(#[trigger] events.take(k)) >= 0
    &&& depth_after(events) == 0
}

/// Sequences in which no event changes the depth.
pub open spec fn flat(events: Seq<Event>) -> bool {
    forall|k: int| 0 <= k < events.len() ==> depth_change(#[trigger] events[k]) == 0
}

pub proof fn lemma_depth_concat(a: Seq<Event>, b: Seq<Event>)
    ensures
        depth_after(a + b) == depth_after(a) + depth_after(b),
    decreases b.len(),
{
    if b.len() == 0 {
        assert(a + b =~= a);
    } else {
        assert((a + b).drop_last() =~= a + b.drop_last());
        lemma_depth_concat(a, b.drop_last());
    }
}

pub proof fn lemma_depth_bounded(events: Seq<Event>)
    ensures
        depth_after(events) <= events.len(),
    decreases events.len(),
{
    if events.len() > 0 {
        lemma_depth_bounded(events.drop_last());
    }
}

pub proof fn lemma_flat_depth(events: Seq<Event>)
    requires
        flat(events),
    ensures
        depth_after(events) == 0,
        balanced(events),
    decreases events.len(),
{
    if events.len() > 0 {
        assert(flat(events.drop_last())) by {
            assert forall|k: int| 0 <= k < events.drop_last().len() implies depth_change(
                #[trigger] events.drop_last()[k],
            ) == 0 by {
                assert(events.drop_last()[k] == events[k]);
            }
        }
        lemma_flat_depth(events.drop_last());
        assert(depth_change(events[events.len() - 1]) == 0);
    }
    assert forall|k: int| 0 <= k <= events.len() implies depth_after(#[trigger] events.take(k)) >= 0 by {
        assert(flat(events.take(k))) by {
            assert forall|j: int| 0 <= j < events.take(k).len() implies depth_change(
                #[trigger] events.take(k)[j],
            ) == 0 by {
                assert(events.take(k)[j] == events[j]);
            }
        }
        if k < events.len() {
            lemma_flat_depth(events.take(k));
        } else {
            assert(events.take(k) =~= events);
        }
    }
}

pub proof fn lemma_balanced_concat(a: Seq<Event>, b: Seq<Event>)
    requires
        balanced(a),
        balanced(b),
    ensures
        balanced(a + b),
{
    lemma_depth_concat(a, b);
    assert forall|k: int| 0 <= k <= (a + b).len() implies depth_after(#[trigger] (a + b).take(k)) >= 0 by {
        if k <= a.len() {
            assert((a + b).take(k) =~= a.take(k));
        } else {
            assert((a + b).take(k) =~= a + b.take(k - a.len()));
            lemma_depth_concat(a, b.take(k - a.len()));
        }
    }
}

pub proof fn lemma_argument_events_flat(args: Seq<Argument>, defs: Seq<crate::schema::InputValueDefinition>)
    ensures
        flat(argument_events(args, defs)),
    decreases args.len(),
{
    if args.len() > 0 {
        lemma_argument_events_flat(args.drop_last(), defs);
    }
}

pub proof fn lemma_variable_definition_events_flat(vds: Seq<crate::document::VariableDefinition>)
    ensures
        flat(variable_definition_events(vds)),
    decreases vds.len(),
{
    if vds.len() > 0 {
        lemma_variable_definition_events_flat(vds.drop_last());
    }
}

pub proof fn lemma_directive_argument_events_flat<'a, 'v>(ctx: WalkContext<'a, 'v>, ds: Seq<Directive>)
    ensures
        flat(ctx.directive_argument_events(ds)),
    decreases ds.len(),
{
    if ds.len() > 0 {
        lemma_directive_argument_events_flat(ctx, ds.drop_last());
        match ctx.schema_definition.directive_index(ds.last().name@) {
            Some(k) => lemma_argument_events_flat(
                ds.last().arguments@,
                ctx.schema_definition.directives@[k].arguments@,
            ),
            None => {},
        }
    }
}

pub proof fn lemma_selection_set_balanced<'a, 'v>(
    ctx: WalkContext<'a, 'v>,
    selections: Seq<Selection>,
    ty: int,
    included: bool,
    active: Seq<bool>,
)
    ensures
        balanced(ctx.selection_set_events(selections, ty, included, active)),
    decreases inactive_count(active), selections,
{
    if selections.len() == 0 {
        lemma_flat_depth(ctx.selection_set_events(selections, ty, included, active));
    } else {
        lemma_selection_set_balanced(ctx, selections.drop_last(), ty, included, active);
        lemma_selection_balanced(ctx, selections.last(), ty, included, active);
        lemma_balanced_concat(
            ctx.selection_set_events(selections.drop_last(), ty, included, active),
            ctx.selection_events(selections.last(), ty, included, active),
        );
    }
}

pub proof fn lemma_selection_balanced<'a, 'v>(
    ctx: WalkContext<'a, 'v>,
    selection: Selection,
    ty: int,
    included: bool,
    active: Seq<bool>,
)
    ensures
        balanced(ctx.selection_events(selection, ty, included, active)),
    decreases inactive_count(active), selection,
{
    let empty: Seq<Event<'a>> = Seq::empty();
    lemma_flat_depth(empty);
    match selection {
        Selection::Field(f) => match spec_fields_of(ctx.schema_definition.types@[ty].kind) {
            Some(fields) => match field_index(fields, f.name@) {
                Some(k) => lemma_field_balanced(ctx, f, fields[k], ty, included, active),
                None => {},
            },
            None => {},
        },
        Selection::InlineFragment(i) => {
            let inc = ctx.field_included(included, i.directives@);
            let scoped = match i.type_condition {
                Some(tc) => ctx.schema_definition.type_index(tc@),
                None => Some(ty),
            };
            match scoped {
                Some(t) => lemma_selection_set_balanced(ctx, i.selection_set@, t, inc, active),
                None => {},
            }
        },
        Selection::FragmentSpread(s) => {
            let inc = ctx.field_included(included, s.directives@);
            match ctx.executable_document.fragment_index(s.name@) {
                Some(k) => if 0 <= k < active.len() && !active[k] {
                    let fd = ctx.executable_document.fragment_definitions@[k];
                    match ctx.schema_definition.type_index(fd.type_condition@) {
                        Some(t) => {
                            lemma_inactive_count_update(active, k);
                            lemma_selection_set_balanced(ctx, fd.selection_set@, t, inc, active.update(k, true));
                        },
                        None => {},
                    }
                },
                None => {},
            }
        },
    }
}

pub proof fn lemma_field_balanced<'a, 'v>(
    ctx: WalkContext<'a, 'v>,
    field: Field,
    field_definition: FieldDefinition,
    ty: int,
    included: bool,
    active: Seq<bool>,
)
    ensures
        balanced(ctx.field_events(field, field_definition, ty, included, active)),
    decreases inactive_count(active), field,
{
    let inc = ctx.field_included(included, field.directives@);
    let visit: Seq<Event<'a>> = seq![
        Event::VisitField {
            field: &field,
            field_definition: &field_definition,
            scoped_type: ty as usize,
            included: inc,
        },
    ];
    let leave: Seq<Event<'a>> = seq![
        Event::LeaveField {
            field: &field,
            field_definition: &field_definition,
            scoped_type: ty as usize,
            included: inc,
        },
    ];
    let args = argument_events(field.arguments@, field_definition.arguments@);
    let dargs = ctx.directive_argument_events(field.directives@);
    let children = match ctx.schema_definition.type_index(spec_base_name(field_definition.type_ref)) {
        Some(t) => ctx.selection_set_events(field.selection_set@, t, inc, active),
        None => Seq::empty(),
    };
    lemma_argument_events_flat(field.arguments@, field_definition.arguments@);
    lemma_directive_argument_events_flat(ctx, field.directives@);
    lemma_flat_depth(args);
    lemma_flat_depth(dargs);
    lemma_balanced_concat(args, dargs);
    match ctx.schema_definition.type_index(spec_base_name(field_definition.type_ref)) {
        Some(t) => {
            assert(decreases_to!(field => field.selection_set));
            lemma_selection_set_balanced(ctx, field.selection_set@, t, inc, active);
        },
        None => {
            lemma_flat_depth(children);
        },
    }
    lemma_balanced_concat(args + dargs, children);
    let middle = args + dargs + children;
    let all = visit + middle + leave;
    assert(all =~= ctx.field_events(field, field_definition, ty, included, active));
    let d = if inc { 1int } else { 0int };
    assert(depth_after(visit) == d) by {
        assert(visit.drop_last() =~= Seq::<Event<'a>>::empty());
        assert(depth_after(visit.drop_last()) == 0);
        assert(depth_change(visit.last()) == d);
    }
    assert(depth_after(leave) == -d) by {
        assert(leave.drop_last() =~= Seq::<Event<'a>>::empty());
        assert(depth_after(leave.drop_last()) == 0);
        assert(depth_change(leave.last()) == -d);
    }
    lemma_depth_concat(visit, middle);
    lemma_depth_concat(visit + middle, leave);
    assert forall|k: int| 0 <= k <= all.len() implies depth_after(#[trigger] all.take(k)) >= 0 by {
        if k == 0 {
            assert(all.take(k) =~= Seq::<Event<'a>>::empty());
        } else if k <= 1 + middle.len() {
            assert(all.take(k) =~= visit + middle.take(k - 1));
            lemma_depth_concat(visit, middle.take(k - 1));
        } else {
            assert(all.take(k) =~= all);
        }
    }
}

/// The walk of an operation is balanced: every included field visited is left again,
/// never more are left than were visited, and all are left by the end.
pub proof fn lemma_operation_events_balanced<'a, 'v>(ctx: WalkContext<'a, 'v>)
    ensures
        balanced(ctx.operation_events()),
{
    let root: Seq<Event<'a>> = match ctx.root_type_name() {
        Some(n) => match ctx.schema_definition.type_index(n) {
            Some(t) => ctx.selection_set_events(
                ctx.operation_definition.selection_set@,
                t,
                true,
                Seq::new(ctx.executable_document.fragment_definitions@.len(), |i: int| false),
            ),
            None => Seq::empty(),
        },
        None => Seq::empty(),
    };
    match ctx.root_type_name() {
        Some(n) => match ctx.schema_definition.type_index(n) {
            Some(t) => lemma_selection_set_balanced(
                ctx,
                ctx.operation_definition.selection_set@,
                t,
                true,
                Seq::new(ctx.executable_document.fragment_definitions@.len(), |i: int| false),
            ),
            None => lemma_flat_depth(root),
        },
        None => lemma_flat_depth(root),
    }
    let vds = variable_definition_events(ctx.operation_definition.variable_definitions@);
    lemma_variable_definition_events_flat(ctx.operation_definition.variable_definitions@);
    lemma_flat_depth(vds);
    lemma_balanced_concat(root, vds);
}

} // verus!
