//! How deep an operation goes: the greatest number of included fields nested along
//! one path of its selections, where inline fragments and fragment spreads add no
//! level. The greatest depth that the walk reaches is exactly that number.
use vstd::prelude::*;
use crate::document::{Field, Selection};
use crate::executable::operation::nesting::{
    depth_after, depth_change, flat, lemma_argument_events_flat, lemma_depth_concat,
    lemma_directive_argument_events_flat, lemma_flat_depth, lemma_selection_set_balanced,
    lemma_variable_definition_events_flat, max_depth,
};
use crate::document::ExecutableDocument;
use crate::executable::operation::orchestrator::{
    Event, WalkContext, argument_events, inactive_count, lemma_inactive_count_update,
    spec_operation_position, variable_definition_events,
};
use crate::executable::operation::variable_values::VariableValues;
use crate::schema::SchemaDefinition;
use crate::schema::{FieldDefinition, field_index, spec_base_name, spec_fields_of};

verus! {

pub open spec fn max_int(a: int, b: int) -> int {
    if a >= b { a } else { b }
}

impl<'a, 'v> WalkContext<'a, 'v> {
    /// The greatest number of included fields nested along one path through
    /// `selections`, scoped to `ty`.
    pub open spec fn selection_set_depth(
        self,
        selections: Seq<Selection>,
        ty: int,
        included: bool,
        active: Seq<bool>,
    ) -> int
        decreases inactive_count(active), selections,
    {
        if selections.len() == 0 {
            0
        } else {
            max_int(
                self.selection_set_depth(selections.drop_last(), ty, included, active),
                self.selection_depth(selections.last(), ty, included, active),
            )
        }
    }

    /// A field counts one level, if it is included, above its own selections; an inline
    /// fragment or a fragment spread counts the levels of its selections only.
    pub open spec fn selection_depth(
        self,
        selection: Selection,
        ty: int,
        included: bool,
        active: Seq<bool>,
    ) -> int
        decreases inactive_count(active), selection,
    {
        match selection {
            Selection::Field(f) => match spec_fields_of(self.schema_definition.types@[ty].kind) {
                Some(fields) => match field_index(fields, f.name@) {
                    Some(k) => self.field_depth(f, fields[k], included, active),
                    None => 0,
                },
                None => 0,
            },
            Selection::InlineFragment(i) => {
                let inc = self.field_included(included, i.directives@);
                let scoped = match i.type_condition {
                    Some(tc) => self.schema_definition.type_index(tc@),
                    None => Some(ty),
                };
                match scoped {
                    Some(t) => self.selection_set_depth(i.selection_set@, t, inc, active),
                    None => 0,
                }
            },
            Selection::FragmentSpread(s) => {
                let inc = self.field_included(included, s.directives@);
                match self.executable_document.fragment_index(s.name@) {
                    Some(k) => if 0 <= k < active.len() && !active[k] {
                        let fd = self.executable_document.fragment_definitions@[k];
                        match self.schema_definition.type_index(fd.type_condition@) {
                            Some(t) => {
                                proof { lemma_inactive_count_update(active, k); }
                                self.selection_set_depth(fd.selection_set@, t, inc, active.update(k, true))
                            },
                            None => 0,
                        }
                    } else {
                        0
                    },
                    None => 0,
                }
            },
        }
    }

    pub open spec fn field_depth(
        self,
        field: Field,
        field_definition: FieldDefinition,
        included: bool,
        active: Seq<bool>,
    ) -> int
        decreases inactive_count(active), field,
    {
        let inc = self.field_included(included, field.directives@);
        (if inc { 1int } else { 0int }) + match self.schema_definition.type_index(
            spec_base_name(field_definition.type_ref),
        ) {
            Some(t) => self.selection_set_depth(field.selection_set@, t, inc, active),
            None => 0,
        }
    }

    /// The depth of the operation: that of its selections from the root type, with no
    /// fragment being spread.
    pub open spec fn operation_depth(self) -> int {
        match self.root_type_name() {
            Some(n) => match self.schema_definition.type_index(n) {
                Some(t) => self.selection_set_depth(
                    self.operation_definition.selection_set@,
                    t,
                    true,
                    Seq::new(self.executable_document.fragment_definitions@.len(), |i: int| false),
                ),
                None => 0,
            },
            None => 0,
        }
    }
}

proof fn lemma_max_depth_bounds(a: Seq<Event>)
    ensures
        max_depth(a) >= 0,
        max_depth(a) >= depth_after(a),
    decreases a.len(),
{
    if a.len() > 0 {
        lemma_max_depth_bounds(a.drop_last());
    }
}

/// The deepest point of `a + b`: the deepest of `a`, or the depth after `a` plus the
/// deepest of `b`.
proof fn lemma_max_depth_concat(a: Seq<Event>, b: Seq<Event>)
    ensures
        max_depth(a + b) == max_int(max_depth(a), depth_after(a) + max_depth(b)),
    decreases b.len(),
{
    lemma_max_depth_bounds(a);
    if b.len() == 0 {
        assert(a + b =~= a);
    } else {
        assert((a + b).drop_last() =~= a + b.drop_last());
        lemma_max_depth_concat(a, b.drop_last());
        lemma_depth_concat(a, b);
    }
}

proof fn lemma_flat_max_depth(a: Seq<Event>)
    requires
        flat(a),
    ensures
        max_depth(a) == 0,
    decreases a.len(),
{
    if a.len() > 0 {
        assert(flat(a.drop_last())) by {
            assert forall|k: int| 0 <= k < a.drop_last().len() implies depth_change(
                #[trigger] a.drop_last()[k],
            ) == 0 by {
                assert(a.drop_last()[k] == a[k]);
            }
        }
        lemma_flat_max_depth(a.drop_last());
        lemma_flat_depth(a);
    }
}

proof fn lemma_selection_set_depth<'a, 'v>(
    ctx: WalkContext<'a, 'v>,
    selections: Seq<Selection>,
    ty: int,
    included: bool,
    active: Seq<bool>,
)
    ensures
        max_depth(ctx.selection_set_events(selections, ty, included, active)) == ctx.selection_set_depth(
            selections,
            ty,
            included,
            active,
        ),
    decreases inactive_count(active), selections,
{
    if selections.len() > 0 {
        let a = ctx.selection_set_events(selections.drop_last(), ty, included, active);
        let b = ctx.selection_events(selections.last(), ty, included, active);
        lemma_selection_set_depth(ctx, selections.drop_last(), ty, included, active);
        lemma_selection_depth(ctx, selections.last(), ty, included, active);
        lemma_selection_set_balanced(ctx, selections.drop_last(), ty, included, active);
        lemma_max_depth_concat(a, b);
    }
}

proof fn lemma_selection_depth<'a, 'v>(
    ctx: WalkContext<'a, 'v>,
    selection: Selection,
    ty: int,
    included: bool,
    active: Seq<bool>,
)
    ensures
        max_depth(ctx.selection_events(selection, ty, included, active)) == ctx.selection_depth(
            selection,
            ty,
            included,
            active,
        ),
    decreases inactive_count(active), selection,
{
    match selection {
        Selection::Field(f) => match spec_fields_of(ctx.schema_definition.types@[ty].kind) {
            Some(fields) => match field_index(fields, f.name@) {
                Some(k) => lemma_field_depth(ctx, f, fields[k], ty, included, active),
                None => {},
            },
            None => {},
        },
        Selection::InlineFragment(i) => {
            let inc = ctx.field_included(included, i.directives@);
            let scoped = match i.type_condition {
                Some(tc) => ctx.schema_definition.type_index(tc@),
                None => Some(ty),
            };
            match scoped {
                Some(t) => lemma_selection_set_depth(ctx, i.selection_set@, t, inc, active),
                None => {},
            }
        },
        Selection::FragmentSpread(s) => {
            let inc = ctx.field_included(included, s.directives@);
            match ctx.executable_document.fragment_index(s.name@) {
                Some(k) => if 0 <= k < active.len() && !active[k] {
                    let fd = ctx.executable_document.fragment_definitions@[k];
                    match ctx.schema_definition.type_index(fd.type_condition@) {
                        Some(t) => {
                            lemma_inactive_count_update(active, k);
                            lemma_selection_set_depth(ctx, fd.selection_set@, t, inc, active.update(k, true));
                        },
                        None => {},
                    }
                },
                None => {},
            }
        },
    }
}

proof fn lemma_field_depth<'a, 'v>(
    ctx: WalkContext<'a, 'v>,
    field: Field,
    field_definition: FieldDefinition,
    ty: int,
    included: bool,
    active: Seq<bool>,
)
    ensures
        max_depth(ctx.field_events(field, field_definition, ty, included, active)) == ctx.field_depth(
            field,
            field_definition,
            included,
            active,
        ),
    decreases inactive_count(active), field,
{
    let inc = ctx.field_included(included, field.directives@);
    let visit: Seq<Event<'a>> = seq![
        Event::VisitField {
            field: &field,
            field_definition: &field_definition,
            scoped_type: ty as usize,
            included: inc,
        },
    ];
    let leave: Seq<Event<'a>> = seq![
        Event::LeaveField {
            field: &field,
            field_definition: &field_definition,
            scoped_type: ty as usize,
            included: inc,
        },
    ];
    let args = argument_events(field.arguments@, field_definition.arguments@);
    let dargs = ctx.directive_argument_events(field.directives@);
    let children = match ctx.schema_definition.type_index(spec_base_name(field_definition.type_ref)) {
        Some(t) => ctx.selection_set_events(field.selection_set@, t, inc, active),
        None => Seq::empty(),
    };
    lemma_argument_events_flat(field.arguments@, field_definition.arguments@);
    lemma_directive_argument_events_flat(ctx, field.directives@);
    lemma_flat_depth(args);
    lemma_flat_depth(dargs);
    lemma_flat_max_depth(args);
    lemma_flat_max_depth(dargs);
    lemma_max_depth_concat(args, dargs);
    lemma_depth_concat(args, dargs);
    match ctx.schema_definition.type_index(spec_base_name(field_definition.type_ref)) {
        Some(t) => {
            assert(decreases_to!(field => field.selection_set));
            lemma_selection_set_depth(ctx, field.selection_set@, t, inc, active);
            lemma_selection_set_balanced(ctx, field.selection_set@, t, inc, active);
        },
        None => {
            lemma_flat_depth(children);
            lemma_flat_max_depth(children);
        },
    }
    lemma_max_depth_concat(args + dargs, children);
    lemma_depth_concat(args + dargs, children);
    let middle = args + dargs + children;
    assert(visit + middle + leave =~= ctx.field_events(field, field_definition, ty, included, active));
    let d = if inc { 1int } else { 0int };
    assert(depth_after(visit) == d && max_depth(visit) == d) by {
        assert(visit.drop_last() =~= Seq::<Event<'a>>::empty());
        assert(depth_after(visit.drop_last()) == 0);
        assert(max_depth(visit.drop_last()) == 0);
        assert(depth_change(visit.last()) == d);
    }
    assert(depth_after(leave) == -d && max_depth(leave) == 0) by {
        assert(leave.drop_last() =~= Seq::<Event<'a>>::empty());
        assert(depth_after(leave.drop_last()) == 0);
        assert(max_depth(leave.drop_last()) == 0);
        assert(depth_change(leave.last()) == -d);
    }
    lemma_max_depth_concat(visit, middle);
    lemma_depth_concat(visit, middle);
    lemma_max_depth_concat(visit + middle, leave);
    lemma_max_depth_bounds(children);
}

/// The depth of the operation chosen by `operation_name`, if there is such an operation.
pub open spec fn spec_resolved_depth<'a, 'v>(
    executable_document: &'a ExecutableDocument,
    schema_definition: &'a SchemaDefinition,
    operation_name: Option<Seq<char>>,
    variable_values: &'v VariableValues,
) -> Option<int> {
    match spec_operation_position(*executable_document, operation_name) {
        Some(i) => if 0 <= i < executable_document.operation_definitions@.len() {
            Some(
                (WalkContext {
                    schema_definition,
                    executable_document,
                    operation_definition: &executable_document.operation_definitions@[i],
                    variable_values,
                }).operation_depth(),
            )
        } else {
            None
        },
        None => None,
    }
}

/// The greatest depth that the walk of an operation reaches is the greatest number of
/// included fields nested along one path of the operation's selections, fragments
/// spread in place and adding no level of their own.
pub proof fn lemma_operation_depth<'a, 'v>(ctx: WalkContext<'a, 'v>)
    ensures
        max_depth(ctx.operation_events()) == ctx.operation_depth(),
{
    let active = Seq::new(ctx.executable_document.fragment_definitions@.len(), |i: int| false);
    let root: Seq<Event<'a>> = match ctx.root_type_name() {
        Some(n) => match ctx.schema_definition.type_index(n) {
            Some(t) => ctx.selection_set_events(ctx.operation_definition.selection_set@, t, true, active),
            None => Seq::empty(),
        },
        None => Seq::empty(),
    };
    match ctx.root_type_name() {
        Some(n) => match ctx.schema_definition.type_index(n) {
            Some(t) => {
                lemma_selection_set_depth(ctx, ctx.operation_definition.selection_set@, t, true, active);
                lemma_selection_set_balanced(ctx, ctx.operation_definition.selection_set@, t, true, active);
            },
            None => lemma_flat_depth(root),
        },
        None => lemma_flat_depth(root),
    }
    let vds = variable_definition_events(ctx.operation_definition.variable_definitions@);
    lemma_variable_definition_events_flat(ctx.operation_definition.variable_definitions@);
    lemma_flat_max_depth(vds);
    lemma_max_depth_concat(root, vds);
}

} // verus!
