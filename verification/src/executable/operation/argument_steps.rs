//! The arguments a walk visits depend on the schema, the document and the operation
//! alone: the variable values only decide which fields are included.
use vstd::prelude::*;
use crate::document::{Field, Selection};
use crate::executable::operation::orchestrator::{
    Event, WalkContext, argument_events, inactive_count, lemma_inactive_count_update,
    variable_definition_events,
};
use crate::executable::operation::variable_values::VariableValues;
use crate::schema::{FieldDefinition, field_index, spec_base_name, spec_fields_of};

verus! {

/// The argument steps among `events`, in order.
pub open spec fn arguments_of<'a>(events: Seq<Event<'a>>) -> Seq<Event<'a>>
    decreases events.len(),
{
    if events.len() == 0 {
        Seq::empty()
    } else {
        arguments_of(events.drop_last()) + if events.last() is VisitArgument {
            seq![events.last()]
        } else {
            Seq::empty()
        }
    }
}

pub proof fn lemma_arguments_of_concat<'a>(a: Seq<Event<'a>>, b: Seq<Event<'a>>)
    ensures
        arguments_of(a + b) == arguments_of(a) + arguments_of(b),
    decreases b.len(),
{
    if b.len() == 0 {
        assert(a + b =~= a);
        assert(arguments_of(a) + arguments_of(b) =~= arguments_of(a));
    } else {
        assert((a + b).drop_last() =~= a + b.drop_last());
        lemma_arguments_of_concat(a, b.drop_last());
        assert(arguments_of(a + b) =~= arguments_of(a) + arguments_of(b));
    }
}

proof fn lemma_single_step<'a>(e: Event<'a>)
    requires
        !(e is VisitArgument),
    ensures
        arguments_of(seq![e]) =~= Seq::<Event<'a>>::empty(),
{
    let s = seq![e];
    assert(s.drop_last() =~= Seq::<Event<'a>>::empty());
    assert(arguments_of(s.drop_last()) =~= Seq::<Event<'a>>::empty());
    assert(s.last() == e);
}

/// Two walks over the same schema and document; the operation that decides `@skip`
/// and `@include`, and the variable values, may differ.
pub open spec fn same_walk<'a, 'v, 'w>(c1: WalkContext<'a, 'v>, c2: WalkContext<'a, 'w>) -> bool {
    &&& c1.schema_definition == c2.schema_definition
    &&& c1.executable_document == c2.executable_document
}

pub proof fn lemma_selection_set_arguments<'a, 'v, 'w>(
    c1: WalkContext<'a, 'v>,
    c2: WalkContext<'a, 'w>,
    selections: Seq<Selection>,
    ty: int,
    i1: bool,
    i2: bool,
    active: Seq<bool>,
)
    requires
        same_walk(c1, c2),
    ensures
        arguments_of(c1.selection_set_events(selections, ty, i1, active)) == arguments_of(
            c2.selection_set_events(selections, ty, i2, active),
        ),
    decreases inactive_count(active), selections,
{
    if selections.len() > 0 {
        lemma_selection_set_arguments(c1, c2, selections.drop_last(), ty, i1, i2, active);
        lemma_selection_arguments(c1, c2, selections.last(), ty, i1, i2, active);
        lemma_arguments_of_concat(
            c1.selection_set_events(selections.drop_last(), ty, i1, active),
            c1.selection_events(selections.last(), ty, i1, active),
        );
        lemma_arguments_of_concat(
            c2.selection_set_events(selections.drop_last(), ty, i2, active),
            c2.selection_events(selections.last(), ty, i2, active),
        );
    }
}

pub proof fn lemma_selection_arguments<'a, 'v, 'w>(
    c1: WalkContext<'a, 'v>,
    c2: WalkContext<'a, 'w>,
    selection: Selection,
    ty: int,
    i1: bool,
    i2: bool,
    active: Seq<bool>,
)
    requires
        same_walk(c1, c2),
    ensures
        arguments_of(c1.selection_events(selection, ty, i1, active)) == arguments_of(
            c2.selection_events(selection, ty, i2, active),
        ),
    decreases inactive_count(active), selection,
{
    match selection {
        Selection::Field(f) => match spec_fields_of(c1.schema_definition.types@[ty].kind) {
            Some(fields) => match field_index(fields, f.name@) {
                Some(k) => lemma_field_arguments(c1, c2, f, fields[k], ty, i1, i2, active),
                None => {},
            },
            None => {},
        },
        Selection::InlineFragment(i) => {
            let scoped = match i.type_condition {
                Some(tc) => c1.schema_definition.type_index(tc@),
                None => Some(ty),
            };
            match scoped {
                Some(t) => lemma_selection_set_arguments(
                    c1,
                    c2,
                    i.selection_set@,
                    t,
                    c1.field_included(i1, i.directives@),
                    c2.field_included(i2, i.directives@),
                    active,
                ),
                None => {},
            }
        },
        Selection::FragmentSpread(s) => {
            match c1.executable_document.fragment_index(s.name@) {
                Some(k) => if 0 <= k < active.len() && !active[k] {
                    let fd = c1.executable_document.fragment_definitions@[k];
                    match c1.schema_definition.type_index(fd.type_condition@) {
                        Some(t) => {
                            lemma_inactive_count_update(active, k);
                            lemma_selection_set_arguments(
                                c1,
                                c2,
                                fd.selection_set@,
                                t,
                                c1.field_included(i1, s.directives@),
                                c2.field_included(i2, s.directives@),
                                active.update(k, true),
                            );
                        },
                        None => {},
                    }
                },
                None => {},
            }
        },
    }
}

pub proof fn lemma_field_arguments<'a, 'v, 'w>(
    c1: WalkContext<'a, 'v>,
    c2: WalkContext<'a, 'w>,
    field: Field,
    field_definition: FieldDefinition,
    ty: int,
    i1: bool,
    i2: bool,
    active: Seq<bool>,
)
    requires
        same_walk(c1, c2),
    ensures
        arguments_of(c1.field_events(field, field_definition, ty, i1, active)) == arguments_of(
            c2.field_events(field, field_definition, ty, i2, active),
        ),
    decreases inactive_count(active), field,
{
    let inc1 = c1.field_included(i1, field.directives@);
    let inc2 = c2.field_included(i2, field.directives@);
    let args = argument_events::<'a>(field.arguments@, field_definition.arguments@);
    let dargs = c1.directive_argument_events(field.directives@);
    assert(dargs == c2.directive_argument_events(field.directives@)) by {
        lemma_directive_arguments_same(c1, c2, field.directives@);
    }
    let ch1 = match c1.schema_definition.type_index(spec_base_name(field_definition.type_ref)) {
        Some(t) => c1.selection_set_events(field.selection_set@, t, inc1, active),
        None => Seq::empty(),
    };
    let ch2 = match c2.schema_definition.type_index(spec_base_name(field_definition.type_ref)) {
        Some(t) => c2.selection_set_events(field.selection_set@, t, inc2, active),
        None => Seq::empty(),
    };
    match c1.schema_definition.type_index(spec_base_name(field_definition.type_ref)) {
        Some(t) => {
            assert(decreases_to!(field => field.selection_set));
            lemma_selection_set_arguments(c1, c2, field.selection_set@, t, inc1, inc2, active);
        },
        None => {},
    }
    let v1: Seq<Event<'a>> = seq![
        Event::VisitField {
            field: &field,
            field_definition: &field_definition,
            scoped_type: ty as usize,
            included: inc1,
        },
    ];
    let v2: Seq<Event<'a>> = seq![
        Event::VisitField {
            field: &field,
            field_definition: &field_definition,
            scoped_type: ty as usize,
            included: inc2,
        },
    ];
    let l1: Seq<Event<'a>> = seq![
        Event::LeaveField {
            field: &field,
            field_definition: &field_definition,
            scoped_type: ty as usize,
            included: inc1,
        },
    ];
    let l2: Seq<Event<'a>> = seq![
        Event::LeaveField {
            field: &field,
            field_definition: &field_definition,
            scoped_type: ty as usize,
            included: inc2,
        },
    ];
    assert(c1.field_events(field, field_definition, ty, i1, active) =~= v1 + args + dargs + ch1 + l1);
    assert(c2.field_events(field, field_definition, ty, i2, active) =~= v2 + args + dargs + ch2 + l2);
    lemma_arguments_of_concat(v1 + args + dargs + ch1, l1);
    lemma_arguments_of_concat(v1 + args + dargs, ch1);
    lemma_arguments_of_concat(v1 + args, dargs);
    lemma_arguments_of_concat(v1, args);
    lemma_arguments_of_concat(v2 + args + dargs + ch2, l2);
    lemma_arguments_of_concat(v2 + args + dargs, ch2);
    lemma_arguments_of_concat(v2 + args, dargs);
    lemma_arguments_of_concat(v2, args);
    lemma_single_step(v1[0]);
    lemma_single_step(v2[0]);
    lemma_single_step(l1[0]);
    lemma_single_step(l2[0]);
    assert(v1 =~= seq![v1[0]]);
    assert(v2 =~= seq![v2[0]]);
    assert(l1 =~= seq![l1[0]]);
    assert(l2 =~= seq![l2[0]]);
}

proof fn lemma_directive_arguments_same<'a, 'v, 'w>(
    c1: WalkContext<'a, 'v>,
    c2: WalkContext<'a, 'w>,
    ds: Seq<crate::value::Directive>,
)
    requires
        same_walk(c1, c2),
    ensures
        c1.directive_argument_events(ds) == c2.directive_argument_events(ds),
    decreases ds.len(),
{
    if ds.len() > 0 {
        lemma_directive_arguments_same(c1, c2, ds.drop_last());
    }
}

proof fn lemma_variable_definitions_no_arguments<'a>(vds: Seq<crate::document::VariableDefinition>)
    where
        'a: 'a,
    ensures
        arguments_of(variable_definition_events::<'a>(vds)) =~= Seq::<Event<'a>>::empty(),
    decreases vds.len(),
{
    if vds.len() > 0 {
        lemma_variable_definitions_no_arguments::<'a>(vds.drop_last());
        let step: Seq<Event<'a>> = seq![
            Event::VisitVariableDefinition { variable_definition: &vds.last() },
        ];
        lemma_arguments_of_concat(variable_definition_events::<'a>(vds.drop_last()), step);
        lemma_single_step(step[0]);
        assert(step =~= seq![step[0]]);
    }
}

/// The arguments visited by the walk of an operation are the same whatever the
/// variable values.
pub proof fn lemma_operation_arguments_independent<'a, 'v, 'w>(
    c1: WalkContext<'a, 'v>,
    c2: WalkContext<'a, 'w>,
)
    requires
        same_walk(c1, c2),
        c1.operation_definition == c2.operation_definition,
    ensures
        arguments_of(c1.operation_events()) == arguments_of(c2.operation_events()),
{
    let active = Seq::new(c1.executable_document.fragment_definitions@.len(), |i: int| false);
    let r1: Seq<Event<'a>> = match c1.root_type_name() {
        Some(n) => match c1.schema_definition.type_index(n) {
            Some(t) => c1.selection_set_events(c1.operation_definition.selection_set@, t, true, active),
            None => Seq::empty(),
        },
        None => Seq::empty(),
    };
    let r2: Seq<Event<'a>> = match c2.root_type_name() {
        Some(n) => match c2.schema_definition.type_index(n) {
            Some(t) => c2.selection_set_events(c2.operation_definition.selection_set@, t, true, active),
            None => Seq::empty(),
        },
        None => Seq::empty(),
    };
    match c1.root_type_name() {
        Some(n) => match c1.schema_definition.type_index(n) {
            Some(t) => lemma_selection_set_arguments(
                c1,
                c2,
                c1.operation_definition.selection_set@,
                t,
                true,
                true,
                active,
            ),
            None => {},
        },
        None => {},
    }
    let vds = variable_definition_events::<'a>(c1.operation_definition.variable_definitions@);
    lemma_variable_definitions_no_arguments::<'a>(c1.operation_definition.variable_definitions@);
    lemma_arguments_of_concat(r1, vds);
    lemma_arguments_of_concat(r2, vds);
}

} // verus!
