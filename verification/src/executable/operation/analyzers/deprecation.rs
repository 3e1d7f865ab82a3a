//! Reports the deprecated schema members that an operation uses: included fields,
//! arguments, enum values and input object fields marked `@deprecated`, whether they
//! are written in the document or supplied through variable values.
use vstd::prelude::*;
use crate::document::{ExecutableDocument, Field, VariableDefinition};
use crate::executable::operation::orchestrator::{
    Event, OperationResolutionError, Orchestrator, spec_name_of, spec_resolution_error,
    spec_resolved_events,
};
use crate::executable::operation::analyzer::Analyzer;
use crate::executable::operation::variable_values::VariableValues;
use crate::schema::{
    EnumValueDefinition, FieldDefinition, InputValueDefinition, SchemaDefinition, TypeDefinitionKind,
    TypeReference, enum_value_index, find_enum_value, spec_base_name, spec_is_input,
};
use crate::value::{
    Argument, Directive, Value, argument_position, directive_position, entry_position, find_argument,
    find_directive, find_entry,
};

verus! {

/// The kind of deprecated member that was used.
#[derive(PartialEq, Eq, Structural, Clone, Copy, Debug)]
pub enum UsageType {
    Argument,
    EnumValue,
    InputField,
    Field,
    Variable,
}

/// One use of a deprecated member: the deprecation reason, what kind of member it
/// is, and the name it is reported under.
pub struct Offender {
    pub reason: String,
    pub offense_type: UsageType,
    pub name: String,
}

impl View for Offender {
    type V = (Seq<char>, UsageType, Seq<char>);

    open spec fn view(&self) -> (Seq<char>, UsageType, Seq<char>) {
        (self.reason@, self.offense_type, self.name@)
    }
}

pub open spec fn offenders_view(offenders: Seq<Offender>) -> Seq<(Seq<char>, UsageType, Seq<char>)> {
    offenders.map_values(|o: Offender| o@)
}

/// The reason of the first `@deprecated` directive: its `reason` argument when that is
/// a string, else `"No longer supported."`; `None` when the member is not deprecated.
pub open spec fn deprecation_reason(directives: Seq<Directive>) -> Option<Seq<char>> {
    match directive_position(directives, "deprecated"@) {
        None => None,
        Some(i) => Some(
            match argument_position(directives[i].arguments@, "reason"@) {
                Some(j) => match directives[i].arguments@[j].value {
                    Value::String(s) => s@,
                    _ => "No longer supported."@,
                },
                None => "No longer supported."@,
            },
        ),
    }
}

/// A single offender when the member with these directives is deprecated.
pub open spec fn offender_if_deprecated(
    directives: Seq<Directive>,
    offense_type: UsageType,
    name: Seq<char>,
) -> Seq<(Seq<char>, UsageType, Seq<char>)> {
    match deprecation_reason(directives) {
        Some(reason) => seq![(reason, offense_type, name)],
        None => Seq::empty(),
    }
}

/// The enum value a value names: an enum value, or a string where strings may stand
/// for enum values (in variable values, as in JSON).
pub open spec fn enum_value_name(value: Value, coerce_strings: bool) -> Option<Seq<char>> {
    match value {
        Value::Enum(s) => Some(s@),
        Value::String(s) => if coerce_strings {
            Some(s@)
        } else {
            None
        },
        _ => None,
    }
}

/// The deprecated enum value that `value` uses, reported under `name`.
pub open spec fn enum_value_deprecations(
    values: Seq<EnumValueDefinition>,
    value: Value,
    name: Seq<char>,
    coerce_strings: bool,
) -> Seq<(Seq<char>, UsageType, Seq<char>)> {
    match enum_value_name(value, coerce_strings) {
        Some(v) => match enum_value_index(values, v) {
            Some(k) => if 0 <= k < values.len() {
                offender_if_deprecated(values[k].directives@, UsageType::EnumValue, name)
            } else {
                Seq::empty()
            },
            None => Seq::empty(),
        },
        None => Seq::empty(),
    }
}

/// The number of list wrappers around the named type of a type reference.
pub open spec fn list_depth(ty: TypeReference) -> nat
    decreases ty,
{
    match ty {
        TypeReference::List { inner, .. } => list_depth(*inner) + 1,
        TypeReference::Named { .. } => 0,
    }
}

/// The deprecated members that a value of input type `ty` uses. Lists are entered
/// item by item (a single value for a list type is taken as its only item), enum
/// values are looked up in their enum, and the fields of an input object are taken in
/// the order the schema defines them.
pub open spec fn value_deprecations(
    schema: SchemaDefinition,
    ty: TypeReference,
    value: Value,
    name: Seq<char>,
    coerce_strings: bool,
) -> Seq<(Seq<char>, UsageType, Seq<char>)>
    decreases value, list_depth(ty),
{
    match ty {
        TypeReference::List { inner, .. } => match value {
            Value::List(items) => list_deprecations(schema, *inner, items@, name, coerce_strings),
            _ => value_deprecations(schema, *inner, value, name, coerce_strings),
        },
        TypeReference::Named { name: named_type, .. } => match schema.type_index(named_type@) {
            Some(t) => if 0 <= t < schema.types@.len() {
                match schema.types@[t].kind {
                    TypeDefinitionKind::Enum { values } => enum_value_deprecations(
                        values@,
                        value,
                        name,
                        coerce_strings,
                    ),
                    TypeDefinitionKind::InputObject { fields } => match value {
                        Value::Object(entries) => object_deprecations(
                            schema,
                            fields@,
                            entries@,
                            name,
                            coerce_strings,
                        ),
                        _ => Seq::empty(),
                    },
                    _ => Seq::empty(),
                }
            } else {
                Seq::empty()
            },
            None => Seq::empty(),
        },
    }
}

pub open spec fn list_deprecations(
    schema: SchemaDefinition,
    inner: TypeReference,
    items: Seq<Value>,
    name: Seq<char>,
    coerce_strings: bool,
) -> Seq<(Seq<char>, UsageType, Seq<char>)>
    decreases items, list_depth(inner),
{
    if items.len() == 0 {
        Seq::empty()
    } else {
        list_deprecations(schema, inner, items.drop_last(), name, coerce_strings) + value_deprecations(
            schema,
            inner,
            items.last(),
            name,
            coerce_strings,
        )
    }
}

/// For each field definition of an input object that the object value sets: the
/// field itself when deprecated, then what its value uses.
pub open spec fn object_deprecations(
    schema: SchemaDefinition,
    definitions: Seq<InputValueDefinition>,
    entries: Seq<(String, Value)>,
    name: Seq<char>,
    coerce_strings: bool,
) -> Seq<(Seq<char>, UsageType, Seq<char>)>
    decreases entries, definitions.len(),
{
    if definitions.len() == 0 {
        Seq::empty()
    } else {
        let d = definitions.last();
        object_deprecations(schema, definitions.drop_last(), entries, name, coerce_strings) + match entry_position(
            entries,
            d.name@,
        ) {
            Some(k) => if 0 <= k < entries.len() {
                offender_if_deprecated(d.directives@, UsageType::InputField, d.name@)
                    + value_deprecations(schema, d.type_ref, entries[k].1, name, coerce_strings)
            } else {
                Seq::empty()
            },
            None => Seq::empty(),
        }
    }
}

/// Whether the type of a variable resolves to an input type of the schema.
pub open spec fn variable_type_is_input(schema: SchemaDefinition, ty: TypeReference) -> bool {
    match schema.type_index(spec_base_name(ty)) {
        Some(t) => 0 <= t < schema.types@.len() && spec_is_input(schema.types@[t].kind),
        None => false,
    }
}

/// What one step of a walk reports: an included deprecated field; a deprecated
/// argument and what its value uses; and, for a variable of input type, what its
/// supplied value and then its default use.
pub open spec fn event_deprecations(
    schema: SchemaDefinition,
    variable_values: VariableValues,
    event: Event,
) -> Seq<(Seq<char>, UsageType, Seq<char>)> {
    match event {
        Event::VisitField { field, field_definition, included, .. } => if included {
            offender_if_deprecated(field_definition.directives@, UsageType::Field, field.name@)
        } else {
            Seq::empty()
        },
        Event::VisitArgument { argument, input_value_definition } => offender_if_deprecated(
            input_value_definition.directives@,
            UsageType::Argument,
            argument.name@,
        ) + value_deprecations(
            schema,
            input_value_definition.type_ref,
            argument.value,
            argument.name@,
            false,
        ),
        Event::VisitVariableDefinition { variable_definition } => if variable_type_is_input(
            schema,
            variable_definition.type_ref,
        ) {
            (match variable_values.spec_get(variable_definition.variable@) {
                Some(v) => value_deprecations(
                    schema,
                    variable_definition.type_ref,
                    v,
                    variable_definition.variable@,
                    true,
                ),
                None => Seq::empty(),
            }) + match variable_definition.default_value {
                Some(d) => value_deprecations(
                    schema,
                    variable_definition.type_ref,
                    d,
                    variable_definition.variable@,
                    false,
                ),
                None => Seq::empty(),
            }
        } else {
            Seq::empty()
        },
        _ => Seq::empty(),
    }
}

pub open spec fn events_deprecations(
    schema: SchemaDefinition,
    variable_values: VariableValues,
    events: Seq<Event>,
) -> Seq<(Seq<char>, UsageType, Seq<char>)>
    decreases events.len(),
{
    if events.len() == 0 {
        Seq::empty()
    } else {
        events_deprecations(schema, variable_values, events.drop_last()) + event_deprecations(
            schema,
            variable_values,
            events.last(),
        )
    }
}

/// The reason of the member's `@deprecated` directive, if it has one.
pub fn get_deprecation_reason(directives: &Vec<Directive>) -> (r: Option<String>)
    ensures
        match r {
            Some(s) => deprecation_reason(directives@) == Some(s@),
            None => deprecation_reason(directives@) is None,
        },
{
    let i = match find_directive(directives, "deprecated") {
        Some(i) => i,
        None => return None,
    };
    let arguments = &directives[i].arguments;
    match find_argument(arguments, "reason") {
        Some(j) => match &arguments[j].value {
            Value::String(s) => Some(s.clone()),
            _ => Some(String::from_str("No longer supported.")),
        },
        None => Some(String::from_str("No longer supported.")),
    }
}

fn push_if_deprecated(
    offenders: &mut Vec<Offender>,
    directives: &Vec<Directive>,
    offense_type: UsageType,
    name: &String,
)
    ensures
        offenders_view(final(offenders)@) == offenders_view(old(offenders)@) + offender_if_deprecated(
            directives@,
            offense_type,
            name@,
        ),
{
    match get_deprecation_reason(directives) {
        Some(reason) => {
            let ghost before = offenders@;
            offenders.push(Offender { reason, offense_type, name: name.clone() });
            proof {
                assert(offenders_view(offenders@) =~= offenders_view(before) + offender_if_deprecated(
                    directives@,
                    offense_type,
                    name@,
                ));
            }
        },
        None => {
            proof {
                assert(offenders_view(offenders@) =~= offenders_view(old(offenders)@) + offender_if_deprecated(
                    directives@,
                    offense_type,
                    name@,
                ));
            }
        },
    }
}

fn find_enum_value_deprecations(
    offenders: &mut Vec<Offender>,
    values: &Vec<EnumValueDefinition>,
    value: &Value,
    name: &String,
    coerce_strings: bool,
)
    ensures
        offenders_view(final(offenders)@) == offenders_view(old(offenders)@) + enum_value_deprecations(
            values@,
            *value,
            name@,
            coerce_strings,
        ),
{
    let enum_value: Option<&String> = match value {
        Value::Enum(s) => Some(s),
        Value::String(s) => if coerce_strings {
            Some(s)
        } else {
            None
        },
        _ => None,
    };
    match enum_value {
        Some(v) => match find_enum_value(values, v) {
            Some(k) => {
                push_if_deprecated(offenders, &values[k].directives, UsageType::EnumValue, name);
                return;
            },
            None => {},
        },
        None => {},
    }
    proof {
        assert(offenders_view(offenders@) =~= offenders_view(old(offenders)@) + enum_value_deprecations(
            values@,
            *value,
            name@,
            coerce_strings,
        ));
    }
}

/// Pushes what a value of input type `ty` uses onto `offenders`.
fn find_deprecations_for_value(
    offenders: &mut Vec<Offender>,
    schema: &SchemaDefinition,
    ty: &TypeReference,
    value: &Value,
    name: &String,
    coerce_strings: bool,
)
    ensures
        offenders_view(final(offenders)@) == offenders_view(old(offenders)@) + value_deprecations(
            *schema,
            *ty,
            *value,
            name@,
            coerce_strings,
        ),
    decreases *value, list_depth(*ty),
{
    match ty {
        TypeReference::List { inner, .. } => {
            match value {
                Value::List(items) => {
                    let ghost before = offenders@;
                    let mut i: usize = 0;
                    while i < items.len()
                        invariant
                            i <= items.len(),
                            *value == Value::List(*items),
                            *ty == (TypeReference::List { inner: *inner, required: ty->List_required }),
                            offenders_view(offenders@) == offenders_view(before) + list_deprecations(
                                *schema,
                                **inner,
                                items@.take(i as int),
                                name@,
                                coerce_strings,
                            ),
                        decreases items.len() - i,
                    {
                        proof {
                            assert(items@.take(i + 1).drop_last() =~= items@.take(i as int));
                            assert(items@.take(i + 1).last() == items@[i as int]);
                            assert(decreases_to!(*value => (*value)->List_0));
                            assert(decreases_to!(*items => items@));
                            assert(decreases_to!(items@ => items@[i as int]));
                        }
                        find_deprecations_for_value(
                            offenders,
                            schema,
                            inner,
                            &items[i],
                            name,
                            coerce_strings,
                        );
                        i += 1;
                        proof {
                            assert(offenders_view(offenders@) =~= offenders_view(before) + list_deprecations(
                                *schema,
                                **inner,
                                items@.take(i as int),
                                name@,
                                coerce_strings,
                            ));
                        }
                    }
                    proof { assert(items@.take(i as int) =~= items@); }
                },
                _ => {
                    find_deprecations_for_value(offenders, schema, inner, value, name, coerce_strings);
                },
            }
        },
        TypeReference::Named { name: named_type, .. } => {
            let t = match schema.get_type_definition(named_type) {
                Some(t) => t,
                None => {
                    proof {
                        assert(offenders_view(offenders@) =~= offenders_view(old(offenders)@)
                            + value_deprecations(*schema, *ty, *value, name@, coerce_strings));
                    }
                    return;
                },
            };
            match &schema.types[t].kind {
                TypeDefinitionKind::Enum { values } => {
                    find_enum_value_deprecations(offenders, values, value, name, coerce_strings);
                },
                TypeDefinitionKind::InputObject { fields } => match value {
                    Value::Object(entries) => {
                        let ghost before = offenders@;
                        let mut i: usize = 0;
                        while i < fields.len()
                            invariant
                                i <= fields.len(),
                                *value == Value::Object(*entries),
                                offenders_view(offenders@) == offenders_view(before) + object_deprecations(
                                    *schema,
                                    fields@.take(i as int),
                                    entries@,
                                    name@,
                                    coerce_strings,
                                ),
                            decreases fields.len() - i,
                        {
                            let d = &fields[i];
                            proof {
                                assert(fields@.take(i + 1).drop_last() =~= fields@.take(i as int));
                                assert(fields@.take(i + 1).last() == fields@[i as int]);
                            }
                            match find_entry(entries, &d.name) {
                                Some(k) => {
                                    push_if_deprecated(
                                        offenders,
                                        &d.directives,
                                        UsageType::InputField,
                                        &d.name,
                                    );
                                    proof {
                                        assert(decreases_to!(*value => (*value)->Object_0));
                                        assert(decreases_to!(*entries => entries@));
                                        assert(decreases_to!(entries@ => entries@[k as int]));
                                        assert(decreases_to!(entries@[k as int] => entries@[k as int].1));
                                    }
                                    find_deprecations_for_value(
                                        offenders,
                                        schema,
                                        &d.type_ref,
                                        &entries[k].1,
                                        name,
                                        coerce_strings,
                                    );
                                },
                                None => {},
                            }
                            i += 1;
                            proof {
                                assert(offenders_view(offenders@) =~= offenders_view(before)
                                    + object_deprecations(
                                    *schema,
                                    fields@.take(i as int),
                                    entries@,
                                    name@,
                                    coerce_strings,
                                ));
                            }
                        }
                        proof { assert(fields@.take(i as int) =~= fields@); }
                    },
                    _ => {
                        proof {
                            assert(offenders_view(offenders@) =~= offenders_view(old(offenders)@)
                                + value_deprecations(*schema, *ty, *value, name@, coerce_strings));
                        }
                    },
                },
                _ => {
                    proof {
                        assert(offenders_view(offenders@) =~= offenders_view(old(offenders)@)
                            + value_deprecations(*schema, *ty, *value, name@, coerce_strings));
                    }
                },
            }
        },
    }
}

/// Collects the uses of deprecated members over a walk.
pub struct Deprecation<'a> {
    pub offenders: Vec<Offender>,
    pub schema_definition: &'a SchemaDefinition,
    pub variable_values: &'a VariableValues,
}

impl<'a> Deprecation<'a> {
    pub fn new(schema_definition: &'a SchemaDefinition, variable_values: &'a VariableValues) -> (r: Self)
        ensures
            r.offenders@.len() == 0,
            r.schema_definition == schema_definition,
            r.variable_values == variable_values,
    {
        Deprecation { offenders: Vec::new(), schema_definition, variable_values }
    }

    /// An included field is reported when its definition is deprecated.
    pub fn visit_field(&mut self, field: &Field, field_definition: &FieldDefinition, included: bool)
        ensures
            final(self).schema_definition == old(self).schema_definition,
            final(self).variable_values == old(self).variable_values,
            offenders_view(final(self).offenders@) == offenders_view(old(self).offenders@) + if included {
                offender_if_deprecated(field_definition.directives@, UsageType::Field, field.name@)
            } else {
                Seq::empty()
            },
    {
        if included {
            push_if_deprecated(&mut self.offenders, &field_definition.directives, UsageType::Field, &field.name);
        } else {
            proof { assert(offenders_view(self.offenders@) =~= offenders_view(old(self).offenders@) + Seq::empty()); }
        }
    }

    /// A deprecated argument is reported, then what its value uses.
    pub fn visit_variable_argument(&mut self, argument: &Argument, input_value_definition: &InputValueDefinition)
        ensures
            final(self).schema_definition == old(self).schema_definition,
            final(self).variable_values == old(self).variable_values,
            offenders_view(final(self).offenders@) == offenders_view(old(self).offenders@)
                + offender_if_deprecated(
                input_value_definition.directives@,
                UsageType::Argument,
                argument.name@,
            ) + value_deprecations(
                *old(self).schema_definition,
                input_value_definition.type_ref,
                argument.value,
                argument.name@,
                false,
            ),
    {
        push_if_deprecated(
            &mut self.offenders,
            &input_value_definition.directives,
            UsageType::Argument,
            &argument.name,
        );
        let ghost middle = self.offenders@;
        find_deprecations_for_value(
            &mut self.offenders,
            self.schema_definition,
            &input_value_definition.type_ref,
            &argument.value,
            &argument.name,
            false,
        );
        proof {
            assert(offenders_view(self.offenders@) =~= offenders_view(old(self).offenders@)
                + offender_if_deprecated(
                input_value_definition.directives@,
                UsageType::Argument,
                argument.name@,
            ) + value_deprecations(
                *old(self).schema_definition,
                input_value_definition.type_ref,
                argument.value,
                argument.name@,
                false,
            ));
        }
    }

    /// What the supplied value of a variable, and then its default, use.
    pub fn visit_variable_definition(&mut self, variable_definition: &VariableDefinition)
        ensures
            final(self).schema_definition == old(self).schema_definition,
            final(self).variable_values == old(self).variable_values,
            offenders_view(final(self).offenders@) == offenders_view(old(self).offenders@)
                + event_deprecations(
                *old(self).schema_definition,
                *old(self).variable_values,
                Event::VisitVariableDefinition { variable_definition },
            ),
    {
        let schema = self.schema_definition;
        let ty = &variable_definition.type_ref;
        let is_input = match schema.get_type_definition(ty.base_name()) {
            Some(t) => schema.types[t].is_input(),
            None => false,
        };
        if !is_input {
            proof { assert(offenders_view(self.offenders@) =~= offenders_view(old(self).offenders@) + Seq::empty()); }
            return;
        }
        let ghost start = self.offenders@;
        match self.variable_values.get(&variable_definition.variable) {
            Some(v) => find_deprecations_for_value(
                &mut self.offenders,
                schema,
                ty,
                v,
                &variable_definition.variable,
                true,
            ),
            None => {},
        }
        let ghost middle = self.offenders@;
        match &variable_definition.default_value {
            Some(d) => find_deprecations_for_value(
                &mut self.offenders,
                schema,
                ty,
                d,
                &variable_definition.variable,
                false,
            ),
            None => {},
        }
        proof {
            assert(offenders_view(self.offenders@) =~= offenders_view(old(self).offenders@)
                + event_deprecations(
                *old(self).schema_definition,
                *old(self).variable_values,
                Event::VisitVariableDefinition { variable_definition },
            ));
        }
    }

    /// The uses of deprecated members over a walk, in the order they are met.
    pub fn analyze_events(
        events: &Vec<Event>,
        schema_definition: &'a SchemaDefinition,
        variable_values: &'a VariableValues,
    ) -> (r: Vec<Offender>)
        ensures
            offenders_view(r@) == events_deprecations(*schema_definition, *variable_values, events@),
    {
        let mut analyzer = Deprecation::new(schema_definition, variable_values);
        let mut i: usize = 0;
        while i < events.len()
            invariant
                i <= events.len(),
                analyzer.schema_definition == schema_definition,
                analyzer.variable_values == variable_values,
                offenders_view(analyzer.offenders@) == events_deprecations(
                    *schema_definition,
                    *variable_values,
                    events@.take(i as int),
                ),
            decreases events.len() - i,
        {
            proof {
                assert(events@.take(i + 1).drop_last() =~= events@.take(i as int));
                assert(events@.take(i + 1).last() == events@[i as int]);
            }
            match &events[i] {
                Event::VisitField { field, field_definition, included, .. } => {
                    analyzer.visit_field(field, field_definition, *included);
                },
                Event::VisitArgument { argument, input_value_definition } => {
                    analyzer.visit_variable_argument(argument, input_value_definition);
                },
                Event::VisitVariableDefinition { variable_definition } => {
                    analyzer.visit_variable_definition(variable_definition);
                },
                _ => {
                    proof {
                        assert(events_deprecations(*schema_definition, *variable_values, events@.take(i + 1))
                            =~= events_deprecations(*schema_definition, *variable_values, events@.take(i as int)));
                    }
                },
            }
            i += 1;
        }
        proof { assert(events@.take(i as int) =~= events@); }
        analyzer.into_output()
    }

    /// The uses of deprecated members by the chosen operation of the document.
    pub fn analyze(
        executable_document: &'a ExecutableDocument,
        schema_definition: &'a SchemaDefinition,
        operation_name: Option<&String>,
        variable_values: &'a VariableValues,
    ) -> (r: Result<Vec<Offender>, OperationResolutionError>)
        requires
            schema_definition.wf(),
        ensures
            match r {
                Ok(offenders) => spec_resolved_events(
                    executable_document,
                    schema_definition,
                    spec_name_of(operation_name),
                    variable_values,
                ) matches Some(events) && offenders_view(offenders@) == events_deprecations(
                    *schema_definition,
                    *variable_values,
                    events,
                ),
                Err(e) => spec_resolved_events(
                    executable_document,
                    schema_definition,
                    spec_name_of(operation_name),
                    variable_values,
                ) is None && spec_resolution_error(operation_name, e),
            },
    {
        let events = match Orchestrator::analyze(
            executable_document,
            schema_definition,
            operation_name,
            variable_values,
        ) {
            Ok(events) => events,
            Err(e) => return Err(e),
        };
        Ok(Self::analyze_events(&events, schema_definition, variable_values))
    }
}

impl<'a> Analyzer for Deprecation<'a> {
    type Output = Vec<Offender>;

    open spec fn ready(&self) -> bool {
        true
    }

    fn into_output(self) -> (r: Vec<Offender>)
        ensures
            r == self.offenders,
    {
        self.offenders
    }
}

proof fn lemma_list_deprecations_flatten(
    schema: SchemaDefinition,
    inner: TypeReference,
    items: Seq<Value>,
    name: Seq<char>,
    coerce_strings: bool,
)
    ensures
        list_deprecations(schema, inner, items, name, coerce_strings) == items.map_values(
            |v: Value| value_deprecations(schema, inner, v, name, coerce_strings),
        ).flatten_alt(),
    decreases items.len(),
{
    let f = |v: Value| value_deprecations(schema, inner, v, name, coerce_strings);
    if items.len() > 0 {
        lemma_list_deprecations_flatten(schema, inner, items.drop_last(), name, coerce_strings);
        assert(items.map_values(f).drop_last() =~= items.drop_last().map_values(f));
        assert(items.map_values(f).last() == f(items.last()));
    } else {
        assert(items.map_values(f) =~= Seq::<Seq<(Seq<char>, UsageType, Seq<char>)>>::empty());
    }
}

/// Where a list is expected, a list value uses the deprecated members that its items
/// use, item after item; any other value counts as the list's only item.
pub proof fn lemma_list_value_deprecations(
    schema: SchemaDefinition,
    inner: TypeReference,
    required: bool,
    value: Value,
    name: Seq<char>,
    coerce_strings: bool,
)
    ensures
        value_deprecations(
            schema,
            TypeReference::List { inner: Box::new(inner), required },
            value,
            name,
            coerce_strings,
        ) == match value {
            Value::List(items) => items@.map_values(
                |v: Value| value_deprecations(schema, inner, v, name, coerce_strings),
            ).flatten(),
            _ => value_deprecations(schema, inner, value, name, coerce_strings),
        },
{
    if let Value::List(items) = value {
        lemma_list_deprecations_flatten(schema, inner, items@, name, coerce_strings);
        items@.map_values(|v: Value| value_deprecations(schema, inner, v, name, coerce_strings))
            .lemma_flatten_and_flatten_alt_are_equivalent();
    }
}

} // verus!
