//! Every use of a variable must fit where it is used: the variable's type must be
//! compatible with the type expected there (a nullable variable may stand where a
//! non-null value is expected only when the variable or the location has a non-null
//! default), and a variable for a field of a `@oneOf` input object must be non-null.
//! Uses are taken once from each operation and each fragment definition, from the
//! arguments that a walk of its own selections visits, entering no fragment spread.
//! The uses of a fragment are checked against every operation that spreads it,
//! directly or through other fragments, once however often it is spread.
use vstd::prelude::*;
use crate::common::{first_index, lemma_first_index_is, lemma_first_index_none, name_is};
use crate::document::{
    ExecutableDocument, FragmentDefinition, FragmentSpread, OperationDefinition, OperationType,
    Selection, VariableDefinition,
};
use crate::executable::document::selection_sets::root_type;
use crate::executable::document::traversal::{collect_spreads, spreads_in};
use crate::executable::document::error::{Error, ErrorView, errors_view};
use crate::executable::operation::argument_steps::{arguments_of, lemma_selection_set_arguments};
use crate::executable::operation::orchestrator::{Event, Orchestrator, WalkContext};
use crate::executable::operation::variable_values::VariableValues;
use crate::schema::{
    InputValueDefinition, SchemaDefinition, TypeDefinition, TypeDefinitionKind, TypeReference,
    find_input_value, input_value_index, spec_base_name, spec_is_input, spec_is_required,
};
use crate::value::{Value, directive_position, find_directive};

verus! {

/// Where a variable is used: as an argument, as a field of an input object, or as an
/// item of a list.
#[derive(Clone, Copy)]
pub enum VariableUsageLocation<'a> {
    Argument(&'a InputValueDefinition),
    ObjectField {
        input_value_definition: &'a InputValueDefinition,
        parent_type: &'a TypeDefinition,
    },
    ListValue(&'a TypeReference),
}

#[derive(Clone, Copy)]
pub struct VariableUsage<'a> {
    pub variable: &'a String,
    pub location: VariableUsageLocation<'a>,
}

impl<'a> VariableUsageLocation<'a> {
    /// The type expected at the location.
    pub open spec fn spec_type(self) -> &'a TypeReference {
        match self {
            VariableUsageLocation::Argument(ivd) => &ivd.type_ref,
            VariableUsageLocation::ObjectField { input_value_definition, .. } => &input_value_definition.type_ref,
            VariableUsageLocation::ListValue(t) => t,
        }
    }

    pub fn type_ref(&self) -> (r: &'a TypeReference)
        ensures
            r == self.spec_type(),
    {
        match self {
            VariableUsageLocation::Argument(ivd) => &ivd.type_ref,
            VariableUsageLocation::ObjectField { input_value_definition, .. } => &input_value_definition.type_ref,
            VariableUsageLocation::ListValue(t) => t,
        }
    }

    /// Whether the location has a default value other than `null`.
    pub open spec fn spec_has_default(self) -> bool {
        match self {
            VariableUsageLocation::Argument(ivd) => ivd.default_value matches Some(v) && !(v is Null),
            VariableUsageLocation::ObjectField { input_value_definition, .. } => input_value_definition.default_value matches Some(v)
                && !(v is Null),
            VariableUsageLocation::ListValue(_) => false,
        }
    }

    pub fn has_default(&self) -> (r: bool)
        ensures
            r == self.spec_has_default(),
    {
        let ivd = match self {
            VariableUsageLocation::Argument(ivd) => ivd,
            VariableUsageLocation::ObjectField { input_value_definition, .. } => input_value_definition,
            VariableUsageLocation::ListValue(_) => return false,
        };
        match &ivd.default_value {
            Some(v) => !v.is_null(),
            None => false,
        }
    }

    /// Whether the location is a field of an input object marked `@oneOf`.
    pub open spec fn spec_is_nested_one_of(self) -> bool {
        match self {
            VariableUsageLocation::ObjectField { parent_type, .. } => directive_position(
                parent_type.directives@,
                "oneOf"@,
            ) is Some,
            _ => false,
        }
    }

    pub fn is_nested_one_of(&self) -> (r: bool)
        ensures
            r == self.spec_is_nested_one_of(),
    {
        match self {
            VariableUsageLocation::ObjectField { parent_type, .. } => find_directive(
                &parent_type.directives,
                "oneOf",
            ).is_some(),
            _ => false,
        }
    }
}

/// The same type with its outermost non-null marker removed.
pub open spec fn nullable(t: TypeReference) -> TypeReference {
    match t {
        TypeReference::Named { name, .. } => TypeReference::Named { name, required: false },
        TypeReference::List { inner, .. } => TypeReference::List { inner, required: false },
    }
}

/// Whether a variable of type `variable_type` may stand where `location_type` is
/// expected: the same shape of lists around the same named type, and non-null
/// wherever the location is non-null.
pub open spec fn types_compatible(variable_type: TypeReference, location_type: TypeReference) -> bool
    decreases variable_type,
{
    match variable_type {
        TypeReference::List { inner: vi, required: vr } => match location_type {
            TypeReference::List { inner: li, required: lr } => (vr || !lr) && types_compatible(
                *vi,
                *li,
            ),
            _ => false,
        },
        TypeReference::Named { name: vn, required: vr } => match location_type {
            TypeReference::Named { name: ln, required: lr } => (vr || !lr) && ln@ == vn@,
            _ => false,
        },
    }
}

/// `types_compatible`, with the location's outermost non-null marker ignored when
/// `nullable_location` holds.
pub fn are_types_compatible(
    variable_type: &TypeReference,
    location_type: &TypeReference,
    nullable_location: bool,
) -> (r: bool)
    ensures
        r == types_compatible(
            *variable_type,
            if nullable_location {
                nullable(*location_type)
            } else {
                *location_type
            },
        ),
    decreases *variable_type,
{
    match variable_type {
        TypeReference::List { inner: vi, required: vr } => match location_type {
            TypeReference::List { inner: li, required: lr } => {
                let lr = *lr && !nullable_location;
                (*vr || !lr) && are_types_compatible(vi, li, false)
            },
            _ => false,
        },
        TypeReference::Named { name: vn, required: vr } => match location_type {
            TypeReference::Named { name: ln, required: lr } => {
                let lr = *lr && !nullable_location;
                (*vr || !lr) && *ln == *vn
            },
            _ => false,
        },
    }
}

/// The input object type that the named type at the bottom of `t` is, if it is one.
pub open spec fn input_object_index(schema: SchemaDefinition, t: TypeReference) -> Option<int> {
    match schema.type_index(spec_base_name(t)) {
        Some(k) => if 0 <= k < schema.types@.len() && schema.types@[k].kind is InputObject {
            Some(k)
        } else {
            None
        },
        None => None,
    }
}

pub open spec fn input_fields_of(kind: TypeDefinitionKind) -> Seq<InputValueDefinition> {
    match kind {
        TypeDefinitionKind::InputObject { fields } => fields@,
        _ => Seq::empty(),
    }
}

/// The variables a value uses, each with where it stands. Items of a list are
/// entered only where a list is expected, fields of an object only where an input
/// object is expected and only for the fields it defines.
pub open spec fn value_usages<'a>(
    schema: SchemaDefinition,
    value: Value,
    location: VariableUsageLocation<'a>,
) -> Seq<VariableUsage<'a>>
    decreases value,
{
    match value {
        Value::Variable(n) => seq![VariableUsage { variable: &n, location }],
        Value::List(items) => match *location.spec_type() {
            TypeReference::List { inner, .. } => list_usages(schema, items@, &*inner),
            _ => Seq::empty(),
        },
        Value::Object(entries) => match input_object_index(schema, *location.spec_type()) {
            Some(t) => object_usages(schema, entries@, &schema.types@[t]),
            None => Seq::empty(),
        },
        _ => Seq::empty(),
    }
}

pub open spec fn list_usages<'a>(schema: SchemaDefinition, items: Seq<Value>, inner: &'a TypeReference) -> Seq<
    VariableUsage<'a>,
>
    decreases items,
{
    if items.len() == 0 {
        Seq::empty()
    } else {
        list_usages(schema, items.drop_last(), inner) + value_usages(
            schema,
            items.last(),
            VariableUsageLocation::ListValue(inner),
        )
    }
}

pub open spec fn object_usages<'a>(
    schema: SchemaDefinition,
    entries: Seq<(String, Value)>,
    parent_type: &'a TypeDefinition,
) -> Seq<VariableUsage<'a>>
    decreases entries,
{
    if entries.len() == 0 {
        Seq::empty()
    } else {
        let fields = input_fields_of(parent_type.kind);
        object_usages(schema, entries.drop_last(), parent_type) + match input_value_index(
            fields,
            entries.last().0@,
        ) {
            Some(f) => if 0 <= f < fields.len() {
                value_usages(
                    schema,
                    entries.last().1,
                    VariableUsageLocation::ObjectField {
                        input_value_definition: &fields[f],
                        parent_type,
                    },
                )
            } else {
                Seq::empty()
            },
            None => Seq::empty(),
        }
    }
}

/// Whether a name is that of an input type of the schema.
pub open spec fn is_input_named(schema: SchemaDefinition, name: Seq<char>) -> bool {
    match schema.type_index(name) {
        Some(k) => 0 <= k < schema.types@.len() && spec_is_input(schema.types@[k].kind),
        None => false,
    }
}

/// What is wrong with using the variable defined by `vd` as `usage` describes. A
/// variable whose type is not an input type is left to other rules.
pub open spec fn usage_error<'a>(
    schema: SchemaDefinition,
    vd: &'a VariableDefinition,
    usage: VariableUsage<'a>,
) -> Option<ErrorView<'a>> {
    let variable_type = vd.type_ref;
    let location_type = *usage.location.spec_type();
    if !is_input_named(schema, spec_base_name(variable_type)) {
        None
    } else {
        let compatible = if spec_is_required(location_type) && !spec_is_required(variable_type) {
            let variable_default = vd.default_value matches Some(v) && !(v is Null);
            if !variable_default && !usage.location.spec_has_default() {
                false
            } else {
                types_compatible(variable_type, nullable(location_type))
            }
        } else {
            types_compatible(variable_type, location_type)
        };
        if !compatible {
            Some(
                ErrorView::InvalidVariableUsage {
                    variable: usage.variable@,
                    variable_type: &vd.type_ref,
                    location_type: usage.location.spec_type(),
                },
            )
        } else if usage.location.spec_is_nested_one_of() && !spec_is_required(variable_type) {
            match usage.location {
                VariableUsageLocation::ObjectField { parent_type, .. } => Some(
                    ErrorView::InvalidOneOfVariableUsage {
                        variable: usage.variable@,
                        variable_type: &vd.type_ref,
                        parent_type_name: parent_type.name@,
                    },
                ),
                _ => None,
            }
        } else {
            None
        }
    }
}

fn is_input_name(schema: &SchemaDefinition, name: &String) -> (r: bool)
    ensures
        r == is_input_named(*schema, name@),
{
    match schema.get_type_definition(name) {
        Some(k) => schema.types[k].is_input(),
        None => false,
    }
}

/// Checks one use of the variable that `vd` defines.
pub fn validate_variable_usage<'a>(
    schema: &SchemaDefinition,
    vd: &'a VariableDefinition,
    usage: &VariableUsage<'a>,
) -> (r: Option<Error<'a>>)
    ensures
        match r {
            Some(e) => usage_error(*schema, vd, *usage) == Some(e@),
            None => usage_error(*schema, vd, *usage) is None,
        },
{
    let variable_type = &vd.type_ref;
    if !is_input_name(schema, variable_type.base_name()) {
        return None;
    }
    let location_type = usage.location.type_ref();
    let compatible = if location_type.is_required() && !variable_type.is_required() {
        let variable_default = match &vd.default_value {
            Some(v) => !v.is_null(),
            None => false,
        };
        if !variable_default && !usage.location.has_default() {
            false
        } else {
            are_types_compatible(variable_type, location_type, true)
        }
    } else {
        are_types_compatible(variable_type, location_type, false)
    };
    if !compatible {
        Some(
            Error::InvalidVariableUsage {
                variable: usage.variable,
                variable_type,
                location_type,
            },
        )
    } else if usage.location.is_nested_one_of() && !variable_type.is_required() {
        match usage.location {
            VariableUsageLocation::ObjectField { parent_type, .. } => Some(
                Error::InvalidOneOfVariableUsage {
                    variable: usage.variable,
                    variable_type,
                    parent_type_name: &parent_type.name,
                },
            ),
            _ => None,
        }
    } else {
        None
    }
}

/// Appends the variables `value` uses at `location` to `out`.
pub fn collect_value_usages<'a>(
    schema: &'a SchemaDefinition,
    value: &'a Value,
    location: VariableUsageLocation<'a>,
    out: &mut Vec<VariableUsage<'a>>,
)
    ensures
        final(out)@ == old(out)@ + value_usages(*schema, *value, location),
    decreases *value,
{
    let ghost start = out@;
    match value {
        Value::Variable(n) => {
            out.push(VariableUsage { variable: n, location });
        },
        Value::List(items) => {
            match location.type_ref() {
                TypeReference::List { inner, .. } => {
                    let inner: &'a TypeReference = inner;
                    let mut i: usize = 0;
                    while i < items.len()
                        invariant
                            i <= items.len(),
                            *value == Value::List(*items),
                            out@ == start + list_usages(*schema, items@.take(i as int), inner),
                        decreases items.len() - i,
                    {
                        proof {
                            assert(items@.take(i + 1).drop_last() =~= items@.take(i as int));
                            assert(items@.take(i + 1).last() == items@[i as int]);
                            assert(decreases_to!(*value => (*value)->List_0));
                            assert(decreases_to!(*items => items@));
                            assert(decreases_to!(items@ => items@[i as int]));
                        }
                        collect_value_usages(
                            schema,
                            &items[i],
                            VariableUsageLocation::ListValue(inner),
                            out,
                        );
                        i += 1;
                        proof { assert(out@ =~= start + list_usages(*schema, items@.take(i as int), inner)); }
                    }
                    proof { assert(items@.take(i as int) =~= items@); }
                },
                _ => {
                    proof { assert(out@ =~= start + value_usages(*schema, *value, location)); }
                },
            }
        },
        Value::Object(entries) => {
            let location_type = location.type_ref();
            let t = match schema.get_type_definition(location_type.base_name()) {
                Some(t) => t,
                None => {
                    proof { assert(out@ =~= start + value_usages(*schema, *value, location)); }
                    return;
                },
            };
            let parent_type: &'a TypeDefinition = &schema.types[t];
            let fields = match &parent_type.kind {
                TypeDefinitionKind::InputObject { fields } => fields,
                _ => {
                    proof { assert(out@ =~= start + value_usages(*schema, *value, location)); }
                    return;
                },
            };
            proof { assert(input_fields_of(parent_type.kind) == fields@); }
            let mut i: usize = 0;
            while i < entries.len()
                invariant
                    i <= entries.len(),
                    *value == Value::Object(*entries),
                    input_fields_of(parent_type.kind) == fields@,
                    out@ == start + object_usages(*schema, entries@.take(i as int), parent_type),
                decreases entries.len() - i,
            {
                proof {
                    assert(entries@.take(i + 1).drop_last() =~= entries@.take(i as int));
                    assert(entries@.take(i + 1).last() == entries@[i as int]);
                }
                match find_input_value(fields, &entries[i].0) {
                    Some(f) => {
                        proof {
                            assert(decreases_to!(*value => (*value)->Object_0));
                            assert(decreases_to!(*entries => entries@));
                            assert(decreases_to!(entries@ => entries@[i as int]));
                            assert(decreases_to!(entries@[i as int] => entries@[i as int].1));
                        }
                        collect_value_usages(
                            schema,
                            &entries[i].1,
                            VariableUsageLocation::ObjectField {
                                input_value_definition: &fields[f],
                                parent_type,
                            },
                            out,
                        );
                    },
                    None => {},
                }
                i += 1;
                proof {
                    assert(out@ =~= start + object_usages(*schema, entries@.take(i as int), parent_type));
                }
            }
            proof { assert(entries@.take(i as int) =~= entries@); }
        },
        _ => {
            proof { assert(out@ =~= start + value_usages(*schema, *value, location)); }
        },
    }
}

/// The variable uses within the arguments among `events`, in order.
pub open spec fn argument_usages<'a>(schema: SchemaDefinition, events: Seq<Event<'a>>) -> Seq<
    VariableUsage<'a>,
>
    decreases events.len(),
{
    if events.len() == 0 {
        Seq::empty()
    } else {
        argument_usages(schema, events.drop_last()) + match events.last() {
            Event::VisitArgument { argument, input_value_definition } => value_usages(
                schema,
                argument.value,
                VariableUsageLocation::Argument(input_value_definition),
            ),
            _ => Seq::empty(),
        }
    }
}

proof fn lemma_argument_usages_of_arguments<'a>(schema: SchemaDefinition, events: Seq<Event<'a>>)
    ensures
        argument_usages(schema, arguments_of(events)) == argument_usages(schema, events),
    decreases events.len(),
{
    if events.len() > 0 {
        lemma_argument_usages_of_arguments(schema, events.drop_last());
        let prev = arguments_of(events.drop_last());
        if events.last() is VisitArgument {
            assert((prev + seq![events.last()]).drop_last() =~= prev);
        } else {
            assert(prev + Seq::<Event<'a>>::empty() =~= prev);
        }
    }
}

/// The first variable definition with the given name.
pub open spec fn variable_definition_index(vds: Seq<VariableDefinition>, name: Seq<char>) -> Option<int> {
    first_index(vds, |vd: VariableDefinition| vd.variable@ == name)
}

pub open spec fn usages_errors<'a>(
    schema: SchemaDefinition,
    op: &'a OperationDefinition,
    usages: Seq<VariableUsage<'a>>,
) -> Seq<ErrorView<'a>>
    decreases usages.len(),
{
    if usages.len() == 0 {
        Seq::empty()
    } else {
        let usage = usages.last();
        usages_errors(schema, op, usages.drop_last()) + match variable_definition_index(
            op.variable_definitions@,
            usage.variable@,
        ) {
            Some(k) => if 0 <= k < op.variable_definitions@.len() {
                match usage_error(schema, &op.variable_definitions@[k], usage) {
                    Some(e) => seq![e],
                    None => Seq::empty(),
                }
            } else {
                Seq::empty()
            },
            None => Seq::empty(),
        }
    }
}

/// The walk of `selections`, scoped to `ty` where it is known, that enters no
/// fragment spread; the operation and the variable values only decide inclusion,
/// which the arguments visited do not depend on (`lemma_selection_set_arguments`).
pub open spec fn own_walk<'a>(
    schema: &'a SchemaDefinition,
    document: &'a ExecutableDocument,
    op: &'a OperationDefinition,
    selections: Seq<Selection>,
    ty: Option<int>,
) -> Seq<Event<'a>> {
    let variable_values = vstd::pervasive::arbitrary::<VariableValues>();
    match ty {
        Some(t) => (WalkContext {
            schema_definition: schema,
            executable_document: document,
            operation_definition: op,
            variable_values: &variable_values,
        }).selection_set_events(
            selections,
            t,
            true,
            Seq::new(document.fragment_definitions@.len(), |i: int| true),
        ),
        None => Seq::empty(),
    }
}

/// The variable uses of an operation's own selections, fragments it spreads aside.
pub open spec fn operation_usages<'a>(
    schema: &'a SchemaDefinition,
    document: &'a ExecutableDocument,
    op: &'a OperationDefinition,
) -> Seq<VariableUsage<'a>> {
    argument_usages(*schema, own_walk(schema, document, op, op.selection_set@, root_type(*schema, op.operation_type)))
}

/// The variable uses of a fragment definition's own selections, fragments it spreads
/// aside, taken once however often the fragment is spread.
pub open spec fn fragment_usages<'a>(
    schema: &'a SchemaDefinition,
    document: &'a ExecutableDocument,
    op: &'a OperationDefinition,
    fragment: FragmentDefinition,
) -> Seq<VariableUsage<'a>> {
    argument_usages(
        *schema,
        own_walk(schema, document, op, fragment.selection_set@, schema.type_index(fragment.type_condition@)),
    )
}

/// Whether `sels` hold a spread that names fragment definition `k`.
pub open spec fn spreads_fragment(document: ExecutableDocument, sels: Seq<Selection>, k: int) -> bool {
    exists|i: int|
        0 <= i < spreads_in(sels).len() && document.fragment_index(
            (#[trigger] spreads_in(sels)[i]).name@,
        ) == Some(k)
}

/// The fragment definitions that `sels` reach through at most `s + 1` spreads.
pub open spec fn fragments_reached(document: ExecutableDocument, sels: Seq<Selection>, s: nat) -> Set<int>
    decreases s,
{
    let n = document.fragment_definitions@.len();
    if s == 0 {
        Set::new(|k: int| 0 <= k < n && spreads_fragment(document, sels, k))
    } else {
        let r = fragments_reached(document, sels, (s - 1) as nat);
        r.union(
            Set::new(
                |k: int|
                    0 <= k < n && exists|j: int|
                        #![trigger r.contains(j)]
                        r.contains(j) && spreads_fragment(
                            document,
                            document.fragment_definitions@[j].selection_set@,
                            k,
                        ),
            ),
        )
    }
}

/// Whether operation `i` spreads fragment definition `k`, directly or through other
/// fragments (paths longer than the number of fragments repeat a fragment).
pub open spec fn operation_uses_fragment(document: ExecutableDocument, i: int, k: int) -> bool {
    fragments_reached(
        document,
        document.operation_definitions@[i].selection_set@,
        document.fragment_definitions@.len(),
    ).contains(k)
}

/// The errors of the first `n` operations' own variable uses.
pub open spec fn operations_errors<'a>(
    schema: &'a SchemaDefinition,
    document: &'a ExecutableDocument,
    n: int,
) -> Seq<ErrorView<'a>>
    decreases n,
{
    if n <= 0 {
        Seq::empty()
    } else {
        let op = &document.operation_definitions@[n - 1];
        operations_errors(schema, document, n - 1) + usages_errors(
            *schema,
            op,
            operation_usages(schema, document, op),
        )
    }
}

/// The errors of fragment definition `k`'s variable uses, checked once against each
/// of the first `n` operations that use the fragment.
pub open spec fn fragment_errors<'a>(
    schema: &'a SchemaDefinition,
    document: &'a ExecutableDocument,
    k: int,
    n: int,
) -> Seq<ErrorView<'a>>
    decreases n,
{
    if n <= 0 {
        Seq::empty()
    } else {
        let op = &document.operation_definitions@[n - 1];
        fragment_errors(schema, document, k, n - 1) + if operation_uses_fragment(*document, n - 1, k) {
            usages_errors(
                *schema,
                op,
                fragment_usages(schema, document, op, document.fragment_definitions@[k]),
            )
        } else {
            Seq::empty()
        }
    }
}

pub open spec fn fragments_errors<'a>(
    schema: &'a SchemaDefinition,
    document: &'a ExecutableDocument,
    m: int,
) -> Seq<ErrorView<'a>>
    decreases m,
{
    if m <= 0 {
        Seq::empty()
    } else {
        fragments_errors(schema, document, m - 1) + fragment_errors(
            schema,
            document,
            m - 1,
            document.operation_definitions@.len() as int,
        )
    }
}

/// The errors of the rule: those of each operation's own uses, operation by operation;
/// then those of each fragment definition's uses, fragment by fragment, once for each
/// operation that uses the fragment, in the operations' order.
pub open spec fn all_variable_usages_allowed_errors<'a>(
    schema: &'a SchemaDefinition,
    document: &'a ExecutableDocument,
) -> Seq<ErrorView<'a>> {
    operations_errors(schema, document, document.operation_definitions@.len() as int)
        + fragments_errors(schema, document, document.fragment_definitions@.len() as int)
}

fn find_variable_definition(vds: &Vec<VariableDefinition>, name: &String) -> (r: Option<usize>)
    ensures
        r matches Some(k) ==> variable_definition_index(vds@, name@) == Some(k as int) && k < vds@.len(),
        r is None ==> variable_definition_index(vds@, name@) is None,
{
    let mut i: usize = 0;
    while i < vds.len()
        invariant
            i <= vds.len(),
            forall|j: int|
                0 <= j < i ==> !((|vd: VariableDefinition| vd.variable@ == name@)(#[trigger] vds@[j])),
        decreases vds.len() - i,
    {
        if vds[i].variable == *name {
            proof { lemma_first_index_is(vds@, |vd: VariableDefinition| vd.variable@ == name@, i as int); }
            return Some(i);
        }
        i += 1;
    }
    proof { lemma_first_index_none(vds@, |vd: VariableDefinition| vd.variable@ == name@); }
    None
}

/// The uses in the arguments among `events`.
fn usages_of_events<'a>(schema: &'a SchemaDefinition, events: &Vec<Event<'a>>) -> (r: Vec<VariableUsage<'a>>)
    ensures
        r@ == argument_usages(*schema, events@),
{
    let mut usages: Vec<VariableUsage<'a>> = Vec::new();
    let mut i: usize = 0;
    while i < events.len()
        invariant
            i <= events.len(),
            usages@ == argument_usages(*schema, events@.take(i as int)),
        decreases events.len() - i,
    {
        proof {
            assert(events@.take(i + 1).drop_last() =~= events@.take(i as int));
            assert(events@.take(i + 1).last() == events@[i as int]);
        }
        match &events[i] {
            Event::VisitArgument { argument, input_value_definition } => {
                let argument: &'a crate::value::Argument = argument;
                let ivd: &'a InputValueDefinition = input_value_definition;
                collect_value_usages(
                    schema,
                    &argument.value,
                    VariableUsageLocation::Argument(ivd),
                    &mut usages,
                );
            },
            _ => {
                proof { assert(usages@ =~= argument_usages(*schema, events@.take(i + 1))); }
            },
        }
        i += 1;
    }
    proof { assert(events@.take(i as int) =~= events@); }
    usages
}

/// The uses do not depend on the operation the walk stands in.
proof fn lemma_own_usages_any_operation<'a>(
    schema: &'a SchemaDefinition,
    document: &'a ExecutableDocument,
    op1: &'a OperationDefinition,
    op2: &'a OperationDefinition,
    selections: Seq<Selection>,
    ty: Option<int>,
)
    ensures
        argument_usages(*schema, own_walk(schema, document, op1, selections, ty)) == argument_usages(
            *schema,
            own_walk(schema, document, op2, selections, ty),
        ),
{
    if let Some(t) = ty {
        let vv = vstd::pervasive::arbitrary::<VariableValues>();
        let c1 = WalkContext {
            schema_definition: schema,
            executable_document: document,
            operation_definition: op1,
            variable_values: &vv,
        };
        let c2 = WalkContext {
            schema_definition: schema,
            executable_document: document,
            operation_definition: op2,
            variable_values: &vv,
        };
        let active = Seq::new(document.fragment_definitions@.len(), |i: int| true);
        lemma_selection_set_arguments(c1, c2, selections, t, true, true, active);
        lemma_argument_usages_of_arguments(*schema, c1.selection_set_events(selections, t, true, active));
        lemma_argument_usages_of_arguments(*schema, c2.selection_set_events(selections, t, true, active));
    }
}

/// The uses of `selections`, scoped to `ty`, walked without entering spreads.
fn own_usages<'a>(
    schema: &'a SchemaDefinition,
    document: &'a ExecutableDocument,
    op: &'a OperationDefinition,
    selections: &'a Vec<Selection>,
    ty: Option<usize>,
) -> (r: Vec<VariableUsage<'a>>)
    requires
        ty matches Some(t) ==> t < schema.types@.len(),
    ensures
        r@ == argument_usages(
            *schema,
            own_walk(
                schema,
                document,
                op,
                selections@,
                match ty {
                    Some(t) => Some(t as int),
                    None => None,
                },
            ),
        ),
{
    match ty {
        Some(t) => {
            let empty = VariableValues { entries: Vec::new() };
            let events = Orchestrator::walk_selections(document, schema, op, &empty, selections, t);
            let r = usages_of_events(schema, &events);
            proof {
                let vv = vstd::pervasive::arbitrary::<VariableValues>();
                let active = Seq::new(document.fragment_definitions@.len(), |i: int| true);
                let c1 = WalkContext {
                    schema_definition: schema,
                    executable_document: document,
                    operation_definition: op,
                    variable_values: &empty,
                };
                let c2 = WalkContext {
                    schema_definition: schema,
                    executable_document: document,
                    operation_definition: op,
                    variable_values: &vv,
                };
                lemma_selection_set_arguments(c1, c2, selections@, t as int, true, true, active);
                lemma_argument_usages_of_arguments(*schema, c1.selection_set_events(selections@, t as int, true, active));
                lemma_argument_usages_of_arguments(*schema, c2.selection_set_events(selections@, t as int, true, active));
            }
            r
        },
        None => Vec::new(),
    }
}

/// Appends the errors of `usages` against the variable definitions of `op`.
fn push_usage_errors<'a>(
    schema: &'a SchemaDefinition,
    op: &'a OperationDefinition,
    usages: &Vec<VariableUsage<'a>>,
    errors: &mut Vec<Error<'a>>,
)
    requires
        schema.wf(),
    ensures
        errors_view(final(errors)@) == errors_view(old(errors)@) + usages_errors(*schema, op, usages@),
{
    let vds = &op.variable_definitions;
    let ghost start = errors@;
    let mut j: usize = 0;
    proof { assert(errors_view(start) + usages_errors(*schema, op, usages@.take(0)) =~= errors_view(start)); }
    while j < usages.len()
        invariant
            j <= usages.len(),
            schema.wf(),
            *vds == op.variable_definitions,
            errors_view(errors@) == errors_view(start) + usages_errors(*schema, op, usages@.take(j as int)),
        decreases usages.len() - j,
    {
        proof {
            assert(usages@.take(j + 1).drop_last() =~= usages@.take(j as int));
            assert(usages@.take(j + 1).last() == usages@[j as int]);
        }
        let usage = &usages[j];
        let ghost before = errors@;
        match find_variable_definition(vds, usage.variable) {
            Some(k) => match validate_variable_usage(schema, &vds[k], usage) {
                Some(e) => {
                    errors.push(e);
                    proof { assert(errors_view(errors@) =~= errors_view(before).push(e@)); }
                },
                None => {},
            },
            None => {},
        }
        proof {
            assert(errors_view(errors@) =~= errors_view(start) + usages_errors(
                *schema,
                op,
                usages@.take(j + 1),
            ));
        }
        j += 1;
    }
    proof { assert(usages@.take(j as int) =~= usages@); }
}

/// For each fragment definition, whether `sels` hold a spread that names it.
fn spread_flags(document: &ExecutableDocument, sels: &Vec<Selection>) -> (r: Vec<bool>)
    ensures
        r@.len() == document.fragment_definitions@.len(),
        forall|k: int| 0 <= k < r@.len() ==> r@[k] == spreads_fragment(*document, sels@, k),
{
    let mut spreads: Vec<&FragmentSpread> = Vec::new();
    collect_spreads(sels, &mut spreads);
    proof { assert(spreads@ =~= spreads_in(sels@)); }
    let n = document.fragment_definitions.len();
    let mut r: Vec<bool> = Vec::new();
    let mut k: usize = 0;
    while k < n
        invariant
            k <= n,
            n == document.fragment_definitions@.len(),
            r@ == Seq::new(k as nat, |j: int| false),
        decreases n - k,
    {
        r.push(false);
        k += 1;
        proof { assert(r@ =~= Seq::new(k as nat, |j: int| false)); }
    }
    let mut i: usize = 0;
    while i < spreads.len()
        invariant
            i <= spreads.len(),
            n == document.fragment_definitions@.len(),
            r@.len() == n,
            spreads@ == spreads_in(sels@),
            forall|k: int|
                0 <= k < n ==> r@[k] == exists|x: int|
                    0 <= x < i && document.fragment_index(#[trigger] spreads@[x].name@) == Some(k),
        decreases spreads.len() - i,
    {
        let ghost old_r = r@;
        match document.fragment_definition(&spreads[i].name) {
            Some(k) => {
                r.set(k, true);
            },
            None => {},
        }
        proof {
            assert forall|k: int| 0 <= k < n implies r@[k] == exists|x: int|
                0 <= x < i + 1 && document.fragment_index(#[trigger] spreads@[x].name@) == Some(k) by {
                if document.fragment_index(spreads@[i as int].name@) == Some(k) {
                    assert(0 <= i < i + 1 && document.fragment_index(spreads@[i as int].name@) == Some(k));
                } else {
                    assert(r@[k] == old_r[k]);
                    if exists|x: int| 0 <= x < i + 1 && document.fragment_index(#[trigger] spreads@[x].name@) == Some(k) {
                        let x = choose|x: int| 0 <= x < i + 1 && document.fragment_index(#[trigger] spreads@[x].name@) == Some(k);
                        assert(x < i);
                    }
                }
            }
        }
        i += 1;
    }
    r
}

/// The fragments reached one spread further from those flagged in `cur`.
fn reach_step(cur: &Vec<bool>, direct: &Vec<Vec<bool>>) -> (next: Vec<bool>)
    requires
        direct@.len() == cur@.len(),
        forall|j: int| 0 <= j < direct@.len() ==> (#[trigger] direct@[j])@.len() == cur@.len(),
    ensures
        next@.len() == cur@.len(),
        forall|k: int|
            0 <= k < cur@.len() ==> next@[k] == (cur@[k] || exists|j: int|
                0 <= j < cur@.len() && cur@[j] && (#[trigger] direct@[j])@[k]),
{
    let n = cur.len();
    let mut next: Vec<bool> = Vec::new();
    let mut k: usize = 0;
    while k < n
        invariant
            k <= n,
            n == cur@.len(),
            direct@.len() == n,
            forall|j: int| 0 <= j < direct@.len() ==> (#[trigger] direct@[j])@.len() == n,
            next@.len() == k,
            forall|x: int|
                0 <= x < k ==> next@[x] == (cur@[x] || exists|j: int|
                    0 <= j < n && cur@[j] && (#[trigger] direct@[j])@[x]),
        decreases n - k,
    {
        let mut found = cur[k];
        let mut j: usize = 0;
        while j < n
            invariant
                j <= n,
                k < n,
                n == cur@.len(),
                direct@.len() == n,
                forall|y: int| 0 <= y < direct@.len() ==> (#[trigger] direct@[y])@.len() == n,
                found == (cur@[k as int] || exists|y: int|
                    0 <= y < j && cur@[y] && (#[trigger] direct@[y])@[k as int]),
            decreases n - j,
        {
            if cur[j] && direct[j][k] {
                found = true;
            }
            j += 1;
        }
        next.push(found);
        k += 1;
    }
    next
}

/// For each fragment definition, whether `sels` reach it (see `fragments_reached`).
fn reach_flags(document: &ExecutableDocument, sels: &Vec<Selection>, direct: &Vec<Vec<bool>>) -> (r: Vec<bool>)
    requires
        direct@.len() == document.fragment_definitions@.len(),
        forall|j: int|
            0 <= j < direct@.len() ==> (#[trigger] direct@[j])@.len() == document.fragment_definitions@.len()
                && forall|k: int|
                0 <= k < document.fragment_definitions@.len() ==> direct@[j]@[k] == spreads_fragment(
                    *document,
                    document.fragment_definitions@[j].selection_set@,
                    k,
                ),
    ensures
        r@.len() == document.fragment_definitions@.len(),
        forall|k: int|
            0 <= k < r@.len() ==> r@[k] == fragments_reached(
                *document,
                sels@,
                document.fragment_definitions@.len(),
            ).contains(k),
{
    let n = document.fragment_definitions.len();
    let mut cur = spread_flags(document, sels);
    let mut s: usize = 0;
    while s < n
        invariant
            s <= n,
            n == document.fragment_definitions@.len(),
            cur@.len() == n,
            direct@.len() == n,
            forall|j: int|
                0 <= j < n ==> (#[trigger] direct@[j])@.len() == n && forall|k: int|
                    0 <= k < n ==> direct@[j]@[k] == spreads_fragment(
                        *document,
                        document.fragment_definitions@[j].selection_set@,
                        k,
                    ),
            forall|k: int|
                0 <= k < n ==> cur@[k] == fragments_reached(*document, sels@, s as nat).contains(k),
        decreases n - s,
    {
        let next = reach_step(&cur, direct);
        proof {
            let r = fragments_reached(*document, sels@, s as nat);
            assert forall|k: int| 0 <= k < n implies next@[k] == fragments_reached(
                *document,
                sels@,
                (s + 1) as nat,
            ).contains(k) by {
                if next@[k] && !cur@[k] {
                    let j = choose|j: int| 0 <= j < n && cur@[j] && (#[trigger] direct@[j])@[k];
                    assert(r.contains(j));
                }
                if fragments_reached(*document, sels@, (s + 1) as nat).contains(k) && !r.contains(k) {
                    let j = choose|j: int|
                        #![trigger r.contains(j)]
                        r.contains(j) && spreads_fragment(
                            *document,
                            document.fragment_definitions@[j].selection_set@,
                            k,
                        );
                    lemma_reached_in_range(*document, sels@, s as nat, j);
                    assert(cur@[j] && direct@[j]@[k]);
                }
            }
        }
        cur = next;
        s += 1;
    }
    cur
}

proof fn lemma_reached_in_range(document: ExecutableDocument, sels: Seq<Selection>, s: nat, j: int)
    requires
        fragments_reached(document, sels, s).contains(j),
    ensures
        0 <= j < document.fragment_definitions@.len(),
    decreases s,
{
    if s > 0 {
        if fragments_reached(document, sels, (s - 1) as nat).contains(j) {
            lemma_reached_in_range(document, sels, (s - 1) as nat, j);
        }
    }
}

/// The index of the schema's root type for the operation, where it defines one.
fn operation_root_type(schema: &SchemaDefinition, op: &OperationDefinition) -> (r: Option<usize>)
    ensures
        r matches Some(t) ==> root_type(*schema, op.operation_type) == Some(t as int) && t < schema.types@.len(),
        r is None ==> root_type(*schema, op.operation_type) is None,
{
    let root_name: Option<&String> = match op.operation_type {
        OperationType::Query => Some(&schema.query),
        OperationType::Mutation => match &schema.mutation {
            Some(m) => Some(m),
            None => None,
        },
        OperationType::Subscription => match &schema.subscription {
            Some(m) => Some(m),
            None => None,
        },
    };
    match root_name {
        Some(rn) => schema.get_type_definition(rn),
        None => None,
    }
}

/// Reports every use of a variable that does not fit where it stands: the uses of each
/// operation against it, then those of each fragment definition, once against each
/// operation that spreads the fragment, directly or through other fragments.
pub fn all_variable_usages_allowed<'a>(
    document: &'a ExecutableDocument,
    schema: &'a SchemaDefinition,
) -> (r: Vec<Error<'a>>)
    requires
        schema.wf(),
    ensures
        errors_view(r@) == all_variable_usages_allowed_errors(schema, document),
{
    let ops = &document.operation_definitions;
    let frags = &document.fragment_definitions;
    let mut errors: Vec<Error<'a>> = Vec::new();
    let mut i: usize = 0;
    while i < ops.len()
        invariant
            i <= ops.len(),
            schema.wf(),
            *ops == document.operation_definitions,
            errors_view(errors@) == operations_errors(schema, document, i as int),
        decreases ops.len() - i,
    {
        let op = &ops[i];
        let ty = operation_root_type(schema, op);
        let usages = own_usages(schema, document, op, &op.selection_set, ty);
        push_usage_errors(schema, op, &usages, &mut errors);
        i += 1;
    }
    let n = frags.len();
    let mut direct: Vec<Vec<bool>> = Vec::new();
    let mut j: usize = 0;
    while j < n
        invariant
            j <= n,
            *frags == document.fragment_definitions,
            n == frags@.len(),
            direct@.len() == j,
            forall|x: int|
                0 <= x < j ==> (#[trigger] direct@[x])@.len() == n && forall|k: int|
                    0 <= k < n ==> direct@[x]@[k] == spreads_fragment(*document, frags@[x].selection_set@, k),
        decreases n - j,
    {
        let flags = spread_flags(document, &frags[j].selection_set);
        direct.push(flags);
        j += 1;
    }
    let mut reach: Vec<Vec<bool>> = Vec::new();
    let mut i: usize = 0;
    while i < ops.len()
        invariant
            i <= ops.len(),
            *ops == document.operation_definitions,
            *frags == document.fragment_definitions,
            n == frags@.len(),
            direct@.len() == n,
            forall|x: int|
                0 <= x < n ==> (#[trigger] direct@[x])@.len() == n && forall|k: int|
                    0 <= k < n ==> direct@[x]@[k] == spreads_fragment(*document, frags@[x].selection_set@, k),
            reach@.len() == i,
            forall|x: int|
                0 <= x < i ==> (#[trigger] reach@[x])@.len() == n && forall|k: int|
                    0 <= k < n ==> reach@[x]@[k] == operation_uses_fragment(*document, x, k),
        decreases ops.len() - i,
    {
        let flags = reach_flags(document, &ops[i].selection_set, &direct);
        reach.push(flags);
        i += 1;
    }
    let ghost mid = errors@;
    let mut k: usize = 0;
    while k < n
        invariant
            k <= n,
            schema.wf(),
            *ops == document.operation_definitions,
            *frags == document.fragment_definitions,
            n == frags@.len(),
            reach@.len() == ops@.len(),
            forall|x: int|
                0 <= x < ops@.len() ==> (#[trigger] reach@[x])@.len() == n && forall|y: int|
                    0 <= y < n ==> reach@[x]@[y] == operation_uses_fragment(*document, x, y),
            errors_view(errors@) == errors_view(mid) + fragments_errors(schema, document, k as int),
        decreases n - k,
    {
        let fragment = &frags[k];
        let fty = schema.get_type_definition(&fragment.type_condition);
        let ghost before = errors@;
        let mut usages: Vec<VariableUsage<'a>> = Vec::new();
        if ops.len() > 0 {
            usages = own_usages(schema, document, &ops[0], &fragment.selection_set, fty);
        }
        let mut i: usize = 0;
        while i < ops.len()
            invariant
                i <= ops.len(),
                k < n,
                schema.wf(),
                *ops == document.operation_definitions,
                *frags == document.fragment_definitions,
                n == frags@.len(),
                *fragment == frags@[k as int],
                fty matches Some(t) ==> schema.type_index(fragment.type_condition@) == Some(t as int),
                fty is None ==> schema.type_index(fragment.type_condition@) is None,
                ops@.len() > 0 ==> usages@ == argument_usages(
                    *schema,
                    own_walk(
                        schema,
                        document,
                        &document.operation_definitions@[0],
                        fragment.selection_set@,
                        schema.type_index(fragment.type_condition@),
                    ),
                ),
                reach@.len() == ops@.len(),
                forall|x: int|
                    0 <= x < ops@.len() ==> (#[trigger] reach@[x])@.len() == n && forall|y: int|
                        0 <= y < n ==> reach@[x]@[y] == operation_uses_fragment(*document, x, y),
                errors_view(errors@) == errors_view(before) + fragment_errors(schema, document, k as int, i as int),
            decreases ops.len() - i,
        {
            if reach[i][k] {
                proof {
                    lemma_own_usages_any_operation(
                        schema,
                        document,
                        &document.operation_definitions@[0],
                        &document.operation_definitions@[i as int],
                        fragment.selection_set@,
                        schema.type_index(fragment.type_condition@),
                    );
                }
                push_usage_errors(schema, &ops[i], &usages, &mut errors);
            }
            i += 1;
        }
        k += 1;
    }
    errors
}

/// A nullable variable may stand where a non-null value is expected when the location
/// or the variable has a default other than `null`: if the variable's type fits the
/// location once the location's outermost non-null marker is dropped, and the location
/// is no field of a `@oneOf` input object, the use is allowed.
pub proof fn lemma_location_default_allows_nullable_variable<'a>(
    schema: SchemaDefinition,
    vd: &'a VariableDefinition,
    usage: VariableUsage<'a>,
)
    requires
        !spec_is_required(vd.type_ref),
        usage.location.spec_has_default() || (vd.default_value matches Some(v) && !(v is Null)),
        types_compatible(vd.type_ref, nullable(*usage.location.spec_type())),
        !usage.location.spec_is_nested_one_of(),
    ensures
        usage_error(schema, vd, usage) is None,
{
    if spec_is_required(*usage.location.spec_type()) {
    } else {
        assert(nullable(*usage.location.spec_type()) == *usage.location.spec_type());
    }
}

/// In particular, a nullable variable of a named type is allowed where that type is
/// expected non-null, at an argument or input field with a default other than `null`.
pub proof fn lemma_location_default_allows_nullable_named<'a>(
    schema: SchemaDefinition,
    vd: &'a VariableDefinition,
    usage: VariableUsage<'a>,
    name: Seq<char>,
)
    requires
        vd.type_ref matches TypeReference::Named { name: vn, required } && vn@ == name && !required,
        *usage.location.spec_type() matches TypeReference::Named { name: ln, required } && ln@ == name
            && required,
        usage.location.spec_has_default(),
        !usage.location.spec_is_nested_one_of(),
    ensures
        usage_error(schema, vd, usage) is None,
{
    lemma_location_default_allows_nullable_variable(schema, vd, usage);
}

/// Without a default on either side, a nullable variable of an input type is never
/// allowed where a non-null value is expected: the use is reported as invalid.
pub proof fn lemma_nullable_variable_without_defaults_is_invalid<'a>(
    schema: SchemaDefinition,
    vd: &'a VariableDefinition,
    usage: VariableUsage<'a>,
)
    requires
        is_input_named(schema, spec_base_name(vd.type_ref)),
        !spec_is_required(vd.type_ref),
        spec_is_required(*usage.location.spec_type()),
        !(vd.default_value matches Some(v) && !(v is Null)),
        !usage.location.spec_has_default(),
    ensures
        usage_error(schema, vd, usage) matches Some(ErrorView::InvalidVariableUsage { variable, .. })
            && variable == usage.variable@,
{
}

/// A variable whose type fits the location is allowed there, unless it is nullable
/// and the location is a field of a `@oneOf` input object.
pub proof fn lemma_compatible_variable_is_allowed<'a>(
    schema: SchemaDefinition,
    vd: &'a VariableDefinition,
    usage: VariableUsage<'a>,
)
    requires
        types_compatible(vd.type_ref, *usage.location.spec_type()),
        spec_is_required(vd.type_ref) || !usage.location.spec_is_nested_one_of(),
    ensures
        usage_error(schema, vd, usage) is None,
{
    match (vd.type_ref, *usage.location.spec_type()) {
        (TypeReference::Named { required: vr, .. }, TypeReference::Named { required: lr, .. }) => {},
        (TypeReference::List { required: vr, .. }, TypeReference::List { required: lr, .. }) => {},
        _ => {},
    }
}

/// A nullable variable that fits a field of a `@oneOf` input object is still reported:
/// such fields take only non-null variables.
pub proof fn lemma_nullable_variable_in_one_of_is_invalid<'a>(
    schema: SchemaDefinition,
    vd: &'a VariableDefinition,
    usage: VariableUsage<'a>,
)
    requires
        is_input_named(schema, spec_base_name(vd.type_ref)),
        !spec_is_required(vd.type_ref),
        types_compatible(vd.type_ref, *usage.location.spec_type()),
        usage.location.spec_is_nested_one_of(),
    ensures
        usage_error(schema, vd, usage) matches Some(ErrorView::InvalidOneOfVariableUsage { variable, .. })
            && variable == usage.variable@,
{
    match (vd.type_ref, *usage.location.spec_type()) {
        (TypeReference::Named { required: vr, .. }, TypeReference::Named { required: lr, .. }) => {},
        (TypeReference::List { required: vr, .. }, TypeReference::List { required: lr, .. }) => {},
        _ => {},
    }
}

} // verus!
