//! Walks the selected operation of a document against a schema and variable values,
//! and records what an analyzer visits, in order: each field (with whether it is
//! included in the response according to `@skip` and `@include`), the arguments of
//! each field, the moment a field and its children have been left, and finally the
//! operation's variable definitions. Fragment spreads are walked in place; a spread of
//! a fragment that is already being spread is not walked again.
use vstd::prelude::*;
use crate::common::{first_index, lemma_first_index, lemma_first_index_is, lemma_first_index_none, name_is};
use crate::document::{
    ExecutableDocument, Field, FragmentDefinition, OperationDefinition, OperationType, Selection,
    VariableDefinition,
};
use crate::executable::operation::variable_values::{VariableValues, spec_evaluate_bool};
use crate::schema::{
    FieldDefinition, InputValueDefinition, SchemaDefinition, find_field, find_input_value,
    field_index, input_value_index, spec_base_name, spec_fields_of,
};
use crate::value::{Argument, Directive, Value, argument_position, directive_position, find_argument, find_directive};

verus! {

/// One step of the walk of an operation.
pub enum Event<'a> {
    /// A field with a definition on its scoped type; `scoped_type` indexes the schema's types.
    VisitField {
        field: &'a Field,
        field_definition: &'a FieldDefinition,
        scoped_type: usize,
        included: bool,
    },
    /// An argument of a visited field, or of a directive on it, that has a definition.
    VisitArgument { argument: &'a Argument, input_value_definition: &'a InputValueDefinition },
    /// The field and all its children have been visited.
    LeaveField {
        field: &'a Field,
        field_definition: &'a FieldDefinition,
        scoped_type: usize,
        included: bool,
    },
    VisitVariableDefinition { variable_definition: &'a VariableDefinition },
}

/// Why no operation of a document could be chosen.
pub enum OperationResolutionError {
    NoOperationWithName { name: String },
    AnonymousNotEligible,
}

impl OperationResolutionError {
    pub open spec fn spec_message(&self) -> Seq<char> {
        match self {
            OperationResolutionError::NoOperationWithName { name } => "No operation defined with name "@
                + name@,
            OperationResolutionError::AnonymousNotEligible => "Anonymous operation can only be used when the document contains exactly one operation definition"@,
        }
    }

    pub fn message(&self) -> (r: String)
        ensures
            r@ == self.spec_message(),
    {
        match self {
            OperationResolutionError::NoOperationWithName { name } => {
                let mut m = String::from_str("No operation defined with name ");
                m.append(name.as_str());
                m
            },
            OperationResolutionError::AnonymousNotEligible => String::from_str(
                "Anonymous operation can only be used when the document contains exactly one operation definition",
            ),
        }
    }
}

/// Number of fragments not currently being spread.
pub open spec fn inactive_count(active: Seq<bool>) -> nat
    decreases active.len(),
{
    if active.len() == 0 {
        0
    } else {
        inactive_count(active.drop_last()) + if active.last() {
            0nat
        } else {
            1nat
        }
    }
}

pub proof fn lemma_inactive_count_update(active: Seq<bool>, k: int)
    requires
        0 <= k < active.len(),
        !active[k],
    ensures
        inactive_count(active.update(k, true)) + 1 == inactive_count(active),
    decreases active.len(),
{
    let u = active.update(k, true);
    if k == active.len() - 1 {
        assert(u.drop_last() =~= active.drop_last());
    } else {
        assert(u.drop_last() =~= active.drop_last().update(k, true));
        lemma_inactive_count_update(active.drop_last(), k);
    }
}

/// The boolean `if` argument of the first directive named `directive_name`: a literal,
/// or a `Boolean` variable evaluated against the variable values.
pub open spec fn spec_directive_condition(
    op: OperationDefinition,
    variable_values: VariableValues,
    directives: Seq<Directive>,
    directive_name: Seq<char>,
) -> Option<bool> {
    match directive_position(directives, directive_name) {
        None => None,
        Some(i) => match argument_position(directives[i].arguments@, "if"@) {
            None => None,
            Some(j) => match directives[i].arguments@[j].value {
                Value::Boolean(b) => Some(b),
                Value::Variable(v) => spec_evaluate_bool(op, v@, variable_values),
                _ => None,
            },
        },
    }
}

/// A selection is excluded when `@skip(if:)` is true or `@include(if:)` is false.
pub open spec fn spec_included(
    op: OperationDefinition,
    variable_values: VariableValues,
    directives: Seq<Directive>,
) -> bool {
    let skip = spec_directive_condition(op, variable_values, directives, "skip"@);
    let inclusion = spec_directive_condition(op, variable_values, directives, "include"@);
    !(skip == Some(true) || inclusion == Some(false))
}

/// The arguments among `args` that have a definition in `defs`, each with the first
/// definition of its name.
pub open spec fn argument_events<'a>(args: Seq<Argument>, defs: Seq<InputValueDefinition>) -> Seq<
    Event<'a>,
>
    decreases args.len(),
{
    if args.len() == 0 {
        Seq::empty()
    } else {
        argument_events(args.drop_last(), defs) + match input_value_index(defs, args.last().name@) {
            Some(k) => seq![
                Event::VisitArgument { argument: &args.last(), input_value_definition: &defs[k] },
            ],
            None => Seq::empty(),
        }
    }
}

/// What a walk reads: the schema, the document, the operation being walked and the
/// variable values.
pub struct WalkContext<'a, 'v> {
    pub schema_definition: &'a SchemaDefinition,
    pub executable_document: &'a ExecutableDocument,
    pub operation_definition: &'a OperationDefinition,
    pub variable_values: &'v VariableValues,
}

pub open spec fn variable_definition_events<'a>(vds: Seq<VariableDefinition>) -> Seq<Event<'a>>
    decreases vds.len(),
{
    if vds.len() == 0 {
        Seq::empty()
    } else {
        variable_definition_events(vds.drop_last()) + seq![
            Event::VisitVariableDefinition { variable_definition: &vds.last() },
        ]
    }
}

pub open spec fn operation_has_name(o: OperationDefinition, n: Seq<char>) -> bool {
    match o.name {
        Some(x) => x@ == n,
        None => false,
    }
}

/// The operation an analysis runs on: the first one with the given name, or, when no
/// name is given, the only operation of the document.
pub open spec fn spec_operation_position(
    document: ExecutableDocument,
    operation_name: Option<Seq<char>>,
) -> Option<int> {
    match operation_name {
        Some(n) => first_index(
            document.operation_definitions@,
            |o: OperationDefinition| operation_has_name(o, n),
        ),
        None => if document.operation_definitions@.len() == 1 {
            Some(0)
        } else {
            None
        },
    }
}

/// The walk of the operation chosen by `operation_name`, if there is such an operation.
pub open spec fn spec_resolved_events<'a, 'v>(
    executable_document: &'a ExecutableDocument,
    schema_definition: &'a SchemaDefinition,
    operation_name: Option<Seq<char>>,
    variable_values: &'v VariableValues,
) -> Option<Seq<Event<'a>>> {
    match spec_operation_position(*executable_document, operation_name) {
        Some(i) => if 0 <= i < executable_document.operation_definitions@.len() {
            Some(
                (WalkContext {
                    schema_definition,
                    executable_document,
                    operation_definition: &executable_document.operation_definitions@[i],
                    variable_values,
                }).operation_events(),
            )
        } else {
            None
        },
        None => None,
    }
}

/// The name an operation is asked for by.
pub open spec fn spec_name_of(operation_name: Option<&String>) -> Option<Seq<char>> {
    match operation_name {
        Some(n) => Some(n@),
        None => None,
    }
}

/// The error an analysis reports when no operation is chosen.
pub open spec fn spec_resolution_error(operation_name: Option<&String>, e: OperationResolutionError) -> bool {
    match operation_name {
        Some(n) => e matches OperationResolutionError::NoOperationWithName { name } && name@ == n@,
        None => e is AnonymousNotEligible,
    }
}

pub struct Orchestrator<'a, 'v> {
    pub context: WalkContext<'a, 'v>,
    /// `currently_spread_fragments[k]` holds while fragment definition `k` is being spread.
    pub currently_spread_fragments: Vec<bool>,
    pub events: Vec<Event<'a>>,
}

impl<'a, 'v> WalkContext<'a, 'v> {
    /// The arguments of the directives in `directives` that the schema defines.
    pub open spec fn directive_argument_events(self, directives: Seq<Directive>) -> Seq<Event<'a>>
        decreases directives.len(),
    {
        if directives.len() == 0 {
            Seq::empty()
        } else {
            let d = directives.last();
            self.directive_argument_events(directives.drop_last()) + match self.schema_definition.directive_index(
                d.name@,
            ) {
                Some(k) => argument_events(d.arguments@, self.schema_definition.directives@[k].arguments@),
                None => Seq::empty(),
            }
        }
    }

    pub open spec fn field_included(self, included: bool, directives: Seq<Directive>) -> bool {
        included && spec_included(*self.operation_definition, *self.variable_values, directives)
    }

    /// The name of the schema's root type for the operation, if the schema has one.
    pub open spec fn root_type_name(self) -> Option<Seq<char>> {
        match self.operation_definition.operation_type {
            OperationType::Query => Some(self.schema_definition.query@),
            OperationType::Mutation => match self.schema_definition.mutation {
                Some(m) => Some(m@),
                None => None,
            },
            OperationType::Subscription => match self.schema_definition.subscription {
                Some(m) => Some(m@),
                None => None,
            },
        }
    }

    /// The walk of the whole operation: its selection set from the root type, with no
    /// fragment being spread, then its variable definitions.
    pub open spec fn operation_events(self) -> Seq<Event<'a>> {
        let root = match self.root_type_name() {
            Some(n) => match self.schema_definition.type_index(n) {
                Some(t) => self.selection_set_events(
                    self.operation_definition.selection_set@,
                    t,
                    true,
                    Seq::new(self.executable_document.fragment_definitions@.len(), |i: int| false),
                ),
                None => Seq::empty(),
            },
            None => Seq::empty(),
        };
        root + variable_definition_events(self.operation_definition.variable_definitions@)
    }

    /// The walk of a selection set whose selections are scoped to type `ty`.
    pub open spec fn selection_set_events(
        self,
        selections: Seq<Selection>,
        ty: int,
        included: bool,
        active: Seq<bool>,
    ) -> Seq<Event<'a>>
        decreases inactive_count(active), selections,
    {
        if selections.len() == 0 {
            Seq::empty()
        } else {
            self.selection_set_events(selections.drop_last(), ty, included, active)
                + self.selection_events(selections.last(), ty, included, active)
        }
    }

    pub open spec fn selection_events(
        self,
        selection: Selection,
        ty: int,
        included: bool,
        active: Seq<bool>,
    ) -> Seq<Event<'a>>
        decreases inactive_count(active), selection,
    {
        match selection {
            Selection::Field(f) => match spec_fields_of(self.schema_definition.types@[ty].kind) {
                Some(fields) => match field_index(fields, f.name@) {
                    Some(k) => self.field_events(f, fields[k], ty, included, active),
                    None => Seq::empty(),
                },
                None => Seq::empty(),
            },
            Selection::InlineFragment(i) => {
                let inc = self.field_included(included, i.directives@);
                let scoped = match i.type_condition {
                    Some(tc) => self.schema_definition.type_index(tc@),
                    None => Some(ty),
                };
                match scoped {
                    Some(t) => self.selection_set_events(i.selection_set@, t, inc, active),
                    None => Seq::empty(),
                }
            },
            Selection::FragmentSpread(s) => {
                let inc = self.field_included(included, s.directives@);
                match self.executable_document.fragment_index(s.name@) {
                    Some(k) => if 0 <= k < active.len() && !active[k] {
                        let fd = self.executable_document.fragment_definitions@[k];
                        match self.schema_definition.type_index(fd.type_condition@) {
                            Some(t) => {
                                proof { lemma_inactive_count_update(active, k); }
                                self.selection_set_events(fd.selection_set@, t, inc, active.update(k, true))
                            },
                            None => Seq::empty(),
                        }
                    } else {
                        Seq::empty()
                    },
                    None => Seq::empty(),
                }
            },
        }
    }

    pub open spec fn field_events(
        self,
        field: Field,
        field_definition: FieldDefinition,
        ty: int,
        included: bool,
        active: Seq<bool>,
    ) -> Seq<Event<'a>>
        decreases inactive_count(active), field,
    {
        let inc = self.field_included(included, field.directives@);
        seq![
            Event::VisitField {
                field: &field,
                field_definition: &field_definition,
                scoped_type: ty as usize,
                included: inc,
            },
        ] + argument_events(field.arguments@, field_definition.arguments@)
            + self.directive_argument_events(field.directives@) + match self.schema_definition.type_index(
            spec_base_name(field_definition.type_ref),
        ) {
            Some(t) => self.selection_set_events(field.selection_set@, t, inc, active),
            None => Seq::empty(),
        } + seq![
            Event::LeaveField {
                field: &field,
                field_definition: &field_definition,
                scoped_type: ty as usize,
                included: inc,
            },
        ]
    }
}


impl<'a, 'v> Orchestrator<'a, 'v> {
    /// The parts of the orchestrator that a walk does not change.
    pub open spec fn same_context(self, other: Self) -> bool {
        self.context == other.context
    }

    pub open spec fn inv(self) -> bool {
        self.currently_spread_fragments@.len() == self.context.executable_document.fragment_definitions@.len()
    }

    fn evaluate_boolean_directive_argument_value(
        &self,
        directives: &Vec<Directive>,
        directive_name: &str,
    ) -> (r: Option<bool>)
        ensures
            r == spec_directive_condition(
                *self.context.operation_definition,
                *self.context.variable_values,
                directives@,
                directive_name@,
            ),
    {
        let i = match find_directive(directives, directive_name) {
            Some(i) => i,
            None => return None,
        };
        let arguments = &directives[i].arguments;
        let j = match find_argument(arguments, "if") {
            Some(j) => j,
            None => return None,
        };
        match &arguments[j].value {
            Value::Boolean(b) => Some(*b),
            Value::Variable(v) => self.context.operation_definition.evaluate_bool(v, self.context.variable_values),
            _ => None,
        }
    }

    fn evaluate_selection_inclusion(&self, directives: &Vec<Directive>) -> (r: bool)
        ensures
            r == spec_included(*self.context.operation_definition, *self.context.variable_values, directives@),
    {
        let skip = self.evaluate_boolean_directive_argument_value(directives, "skip");
        let inclusion = self.evaluate_boolean_directive_argument_value(directives, "include");
        !(matches!(skip, Some(true)) || matches!(inclusion, Some(false)))
    }

    fn visit_arguments(&mut self, arguments: &'a Vec<Argument>, definitions: &'a Vec<InputValueDefinition>)
        ensures
            final(self).same_context(*old(self)),
            final(self).currently_spread_fragments == old(self).currently_spread_fragments,
            final(self).events@ == old(self).events@ + argument_events(arguments@, definitions@),
    {
        let mut i: usize = 0;
        while i < arguments.len()
            invariant
                i <= arguments.len(),
                self.same_context(*old(self)),
                self.currently_spread_fragments == old(self).currently_spread_fragments,
                self.events@ == old(self).events@ + argument_events(arguments@.take(i as int), definitions@),
            decreases arguments.len() - i,
        {
            let argument: &'a Argument = &arguments[i];
            proof {
                assert(arguments@.take(i + 1).drop_last() =~= arguments@.take(i as int));
                assert(arguments@.take(i + 1).last() == arguments@[i as int]);
            }
            match find_input_value(definitions, &argument.name) {
                Some(k) => {
                    self.events.push(
                        Event::VisitArgument { argument, input_value_definition: &definitions[k] },
                    );
                },
                None => {},
            }
            i += 1;
            proof {
                assert(self.events@ =~= old(self).events@ + argument_events(arguments@.take(i as int), definitions@));
            }
        }
        proof { assert(arguments@.take(i as int) =~= arguments@); }
    }

    fn visit_directive_arguments(&mut self, directives: &'a Vec<Directive>)
        ensures
            final(self).same_context(*old(self)),
            final(self).currently_spread_fragments == old(self).currently_spread_fragments,
            final(self).events@ == old(self).events@ + old(self).context.directive_argument_events(directives@),
    {
        let schema: &'a SchemaDefinition = self.context.schema_definition;
        let mut i: usize = 0;
        while i < directives.len()
            invariant
                i <= directives.len(),
                schema == self.context.schema_definition,
                self.same_context(*old(self)),
                self.currently_spread_fragments == old(self).currently_spread_fragments,
                self.events@ == old(self).events@ + old(self).context.directive_argument_events(
                    directives@.take(i as int),
                ),
            decreases directives.len() - i,
        {
            let directive: &'a Directive = &directives[i];
            proof {
                assert(directives@.take(i + 1).drop_last() =~= directives@.take(i as int));
                assert(directives@.take(i + 1).last() == directives@[i as int]);
            }
            let ghost before = self.events@;
            match schema.get_directive_definition(&directive.name) {
                Some(k) => {
                    proof { lemma_first_index(schema.directives@, |d: crate::schema::DirectiveDefinition| d.name@ == directive.name@); }
                    self.visit_arguments(&directive.arguments, &schema.directives[k].arguments);
                },
                None => {},
            }
            i += 1;
            proof {
                assert(self.events@ =~= old(self).events@ + old(self).context.directive_argument_events(
                    directives@.take(i as int),
                ));
            }
        }
        proof { assert(directives@.take(i as int) =~= directives@); }
    }

    fn visit_selection_set(&mut self, selections: &'a Vec<Selection>, ty: usize, included: bool)
        requires
            old(self).inv(),
            ty < old(self).context.schema_definition.types@.len(),
        ensures
            final(self).same_context(*old(self)),
            final(self).currently_spread_fragments@ == old(self).currently_spread_fragments@,
            final(self).events@ == old(self).events@ + old(self).context.selection_set_events(
                selections@,
                ty as int,
                included,
                old(self).currently_spread_fragments@,
            ),
        decreases inactive_count(old(self).currently_spread_fragments@), selections@,
    {
        let ghost active = self.currently_spread_fragments@;
        let mut i: usize = 0;
        while i < selections.len()
            invariant
                i <= selections.len(),
                self.inv(),
                self.same_context(*old(self)),
                self.currently_spread_fragments@ == active,
                active == old(self).currently_spread_fragments@,
                ty < self.context.schema_definition.types@.len(),
                self.events@ == old(self).events@ + old(self).context.selection_set_events(
                    selections@.take(i as int),
                    ty as int,
                    included,
                    active,
                ),
            decreases selections.len() - i,
        {
            proof {
                assert(selections@.take(i + 1).drop_last() =~= selections@.take(i as int));
                assert(selections@.take(i + 1).last() == selections@[i as int]);
                assert(decreases_to!(selections@ => selections@[i as int]));
            }
            self.visit_selection(&selections[i], ty, included);
            i += 1;
        }
        proof { assert(selections@.take(i as int) =~= selections@); }
    }

    /// Visits one selection scoped to type `ty`: adds the steps of `selection_events`,
    /// and leaves the set of fragments being spread as it found it, so that a spread
    /// that closes a cycle adds nothing.
    pub fn visit_selection(&mut self, selection: &'a Selection, ty: usize, included: bool)
        requires
            old(self).inv(),
            ty < old(self).context.schema_definition.types@.len(),
        ensures
            final(self).same_context(*old(self)),
            final(self).currently_spread_fragments@ == old(self).currently_spread_fragments@,
            final(self).events@ == old(self).events@ + old(self).context.selection_events(
                *selection,
                ty as int,
                included,
                old(self).currently_spread_fragments@,
            ),
        decreases inactive_count(old(self).currently_spread_fragments@), *selection,
    {
        let schema: &'a SchemaDefinition = self.context.schema_definition;
        let document: &'a ExecutableDocument = self.context.executable_document;
        match selection {
            Selection::Field(f) => {
                match schema.types[ty].fields() {
                    Some(fields) => match find_field(fields, &f.name) {
                        Some(k) => {
                            proof { assert(decreases_to!(*selection => (*selection)->Field_0)); }
                            self.visit_field(f, &fields[k], ty, included);
                        },
                        None => {},
                    },
                    None => {},
                }
            },
            Selection::InlineFragment(inline_fragment) => {
                let inc = included && self.evaluate_selection_inclusion(&inline_fragment.directives);
                let scoped = match &inline_fragment.type_condition {
                    Some(tc) => schema.get_type_definition(tc),
                    None => Some(ty),
                };
                match scoped {
                    Some(t) => {
                        proof {
                            assert(decreases_to!(*selection => (*selection)->InlineFragment_0));
                            assert(decreases_to!(inline_fragment.selection_set => inline_fragment.selection_set@));
                        }
                        self.visit_selection_set(&inline_fragment.selection_set, t, inc);
                    },
                    None => {},
                }
            },
            Selection::FragmentSpread(spread) => {
                let inc = included && self.evaluate_selection_inclusion(&spread.directives);
                match document.fragment_definition(&spread.name) {
                    Some(k) => {
                        if !self.currently_spread_fragments[k] {
                            let fd: &'a FragmentDefinition = &document.fragment_definitions[k];
                            match schema.get_type_definition(&fd.type_condition) {
                                Some(t) => {
                                    let ghost active = self.currently_spread_fragments@;
                                    proof { lemma_inactive_count_update(active, k as int); }
                                    self.currently_spread_fragments.set(k, true);
                                    self.visit_selection_set(&fd.selection_set, t, inc);
                                    self.currently_spread_fragments.set(k, false);
                                    proof {
                                        assert(self.currently_spread_fragments@ =~= active);
                                    }
                                },
                                None => {},
                            }
                        }
                    },
                    None => {},
                }
            },
        }
    }

    #[verifier::spinoff_prover]
    #[verifier::rlimit(40)]
    fn visit_field(
        &mut self,
        field: &'a Field,
        field_definition: &'a FieldDefinition,
        ty: usize,
        included: bool,
    )
        requires
            old(self).inv(),
            ty < old(self).context.schema_definition.types@.len(),
        ensures
            final(self).same_context(*old(self)),
            final(self).currently_spread_fragments@ == old(self).currently_spread_fragments@,
            final(self).events@ == old(self).events@ + old(self).context.field_events(
                *field,
                *field_definition,
                ty as int,
                included,
                old(self).currently_spread_fragments@,
            ),
        decreases inactive_count(old(self).currently_spread_fragments@), *field,
    {
        let schema: &'a SchemaDefinition = self.context.schema_definition;
        let inc = included && self.evaluate_selection_inclusion(&field.directives);
        self.events.push(
            Event::VisitField { field, field_definition, scoped_type: ty, included: inc },
        );
        self.visit_arguments(&field.arguments, &field_definition.arguments);
        self.visit_directive_arguments(&field.directives);
        match schema.get_type_definition(field_definition.type_ref.base_name()) {
            Some(t) => {
                proof {
                    assert(decreases_to!(*field => field.selection_set));
                    assert(decreases_to!(field.selection_set => field.selection_set@));
                }
                self.visit_selection_set(&field.selection_set, t, inc);
            },
            None => {},
        }
        self.events.push(
            Event::LeaveField { field, field_definition, scoped_type: ty, included: inc },
        );
        proof {
            assert(self.events@ =~= old(self).events@ + old(self).context.field_events(
                *field,
                *field_definition,
                ty as int,
                included,
                old(self).currently_spread_fragments@,
            ));
        }
    }

    fn visit_operation_definition(&mut self)
        requires
            old(self).inv(),
            old(self).context.schema_definition.wf(),
            old(self).currently_spread_fragments@ == Seq::new(
                old(self).context.executable_document.fragment_definitions@.len(),
                |i: int| false,
            ),
        ensures
            final(self).same_context(*old(self)),
            final(self).events@ == old(self).events@ + old(self).context.operation_events(),
    {
        let schema: &'a SchemaDefinition = self.context.schema_definition;
        let operation: &'a OperationDefinition = self.context.operation_definition;
        let root_name: Option<&String> = match operation.operation_type {
            OperationType::Query => Some(&schema.query),
            OperationType::Mutation => match &schema.mutation {
                Some(m) => Some(m),
                None => None,
            },
            OperationType::Subscription => match &schema.subscription {
                Some(m) => Some(m),
                None => None,
            },
        };
        let ghost before = self.events@;
        match root_name {
            Some(n) => match schema.get_type_definition(n) {
                Some(t) => self.visit_selection_set(&operation.selection_set, t, true),
                None => {},
            },
            None => {},
        }
        let ghost middle = self.events@;
        let vds = &operation.variable_definitions;
        let mut i: usize = 0;
        while i < vds.len()
            invariant
                i <= vds.len(),
                self.same_context(*old(self)),
                self.events@ == middle + variable_definition_events(vds@.take(i as int)),
            decreases vds.len() - i,
        {
            proof {
                assert(vds@.take(i + 1).drop_last() =~= vds@.take(i as int));
                assert(vds@.take(i + 1).last() == vds@[i as int]);
            }
            self.events.push(Event::VisitVariableDefinition { variable_definition: &vds[i] });
            i += 1;
            proof {
                assert(self.events@ =~= middle + variable_definition_events(vds@.take(i as int)));
            }
        }
        proof {
            assert(vds@.take(i as int) =~= vds@);
            assert(self.events@ =~= old(self).events@ + old(self).context.operation_events());
        }
    }

    /// The walk of an operation of the document.
    pub fn walk(
        executable_document: &'a ExecutableDocument,
        schema_definition: &'a SchemaDefinition,
        operation_definition: &'a OperationDefinition,
        variable_values: &'v VariableValues,
    ) -> (events: Vec<Event<'a>>)
        requires
            schema_definition.wf(),
        ensures
            events@ == (WalkContext {
                schema_definition,
                executable_document,
                operation_definition,
                variable_values,
            }).operation_events(),
    {
        let n = executable_document.fragment_definitions.len();
        let mut flags: Vec<bool> = Vec::new();
        let mut i: usize = 0;
        while i < n
            invariant
                i <= n,
                n == executable_document.fragment_definitions@.len(),
                flags@ == Seq::new(i as nat, |j: int| false),
            decreases n - i,
        {
            flags.push(false);
            i += 1;
            proof { assert(flags@ =~= Seq::new(i as nat, |j: int| false)); }
        }
        let mut orchestrator = Orchestrator {
            context: WalkContext {
                schema_definition,
                executable_document,
                operation_definition,
                variable_values,
            },
            currently_spread_fragments: flags,
            events: Vec::new(),
        };
        orchestrator.visit_operation_definition();
        proof { assert(orchestrator.events@ =~= orchestrator.context.operation_events()); }
        orchestrator.events
    }

    /// The walk of `selections`, scoped to type `ty`, that enters no fragment spread:
    /// every fragment counts as being spread already.
    pub fn walk_selections(
        executable_document: &'a ExecutableDocument,
        schema_definition: &'a SchemaDefinition,
        operation_definition: &'a OperationDefinition,
        variable_values: &'v VariableValues,
        selections: &'a Vec<Selection>,
        ty: usize,
    ) -> (events: Vec<Event<'a>>)
        requires
            ty < schema_definition.types@.len(),
        ensures
            events@ == (WalkContext {
                schema_definition,
                executable_document,
                operation_definition,
                variable_values,
            }).selection_set_events(
                selections@,
                ty as int,
                true,
                Seq::new(executable_document.fragment_definitions@.len(), |i: int| true),
            ),
    {
        let n = executable_document.fragment_definitions.len();
        let mut flags: Vec<bool> = Vec::new();
        let mut i: usize = 0;
        while i < n
            invariant
                i <= n,
                n == executable_document.fragment_definitions@.len(),
                flags@ == Seq::new(i as nat, |j: int| true),
            decreases n - i,
        {
            flags.push(true);
            i += 1;
            proof { assert(flags@ =~= Seq::new(i as nat, |j: int| true)); }
        }
        let mut orchestrator = Orchestrator {
            context: WalkContext {
                schema_definition,
                executable_document,
                operation_definition,
                variable_values,
            },
            currently_spread_fragments: flags,
            events: Vec::new(),
        };
        orchestrator.visit_selection_set(selections, ty, true);
        proof {
            assert(orchestrator.events@ =~= orchestrator.context.selection_set_events(
                selections@,
                ty as int,
                true,
                Seq::new(n as nat, |i: int| true),
            ));
        }
        orchestrator.events
    }

    /// Chooses the operation to analyze: the first one named `operation_name`, or, when
    /// no name is given, the document's only operation.
    pub fn resolve_operation(
        executable_document: &ExecutableDocument,
        operation_name: Option<&String>,
    ) -> (r: Result<usize, OperationResolutionError>)
        ensures
            match r {
                Ok(i) => spec_operation_position(
                    *executable_document,
                    match operation_name {
                        Some(n) => Some(n@),
                        None => None,
                    },
                ) == Some(i as int) && i < executable_document.operation_definitions@.len(),
                Err(e) => spec_operation_position(
                    *executable_document,
                    match operation_name {
                        Some(n) => Some(n@),
                        None => None,
                    },
                ) is None && match operation_name {
                    Some(n) => e matches OperationResolutionError::NoOperationWithName { name } && name@
                        == n@,
                    None => e is AnonymousNotEligible,
                },
            },
    {
        let ops = &executable_document.operation_definitions;
        match operation_name {
            Some(n) => {
                let ghost p = |o: OperationDefinition| operation_has_name(o, n@);
                let mut i: usize = 0;
                while i < ops.len()
                    invariant
                        i <= ops.len(),
                        p == (|o: OperationDefinition| operation_has_name(o, n@)),
                        *ops == executable_document.operation_definitions,
                        operation_name == Some(n),
                        forall|j: int| 0 <= j < i ==> !p(#[trigger] ops@[j]),
                    decreases ops.len() - i,
                {
                    let matches_name = match &ops[i].name {
                        Some(x) => *x == *n,
                        None => false,
                    };
                    if matches_name {
                        proof {
                            lemma_first_index_is(ops@, |o: OperationDefinition| operation_has_name(o, n@), i as int);
                        }
                        return Ok(i);
                    }
                    i += 1;
                }
                proof { lemma_first_index_none(ops@, |o: OperationDefinition| operation_has_name(o, n@)); }
                Err(OperationResolutionError::NoOperationWithName { name: n.clone() })
            },
            None => {
                if ops.len() == 1 {
                    Ok(0)
                } else {
                    Err(OperationResolutionError::AnonymousNotEligible)
                }
            },
        }
    }

    /// Resolves the operation and walks it.
    pub fn analyze(
        executable_document: &'a ExecutableDocument,
        schema_definition: &'a SchemaDefinition,
        operation_name: Option<&String>,
        variable_values: &'v VariableValues,
    ) -> (r: Result<Vec<Event<'a>>, OperationResolutionError>)
        requires
            schema_definition.wf(),
        ensures
            match r {
                Ok(events) => spec_resolved_events(
                    executable_document,
                    schema_definition,
                    spec_name_of(operation_name),
                    variable_values,
                ) == Some(events@),
                Err(e) => spec_resolved_events(
                    executable_document,
                    schema_definition,
                    spec_name_of(operation_name),
                    variable_values,
                ) is None && spec_resolution_error(operation_name, e),
            },
    {
        let i = match Self::resolve_operation(executable_document, operation_name) {
            Ok(i) => i,
            Err(e) => return Err(e),
        };
        let events = Self::walk(
            executable_document,
            schema_definition,
            &executable_document.operation_definitions[i],
            variable_values,
        );
        Ok(events)
    }
}

} // verus!
