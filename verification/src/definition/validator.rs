//! Validates a schema definition with the built-in rules: the errors of each rule in
//! turn (enum value names, input field names, circular input objects), each over the
//! type definitions in order.
use vstd::prelude::*;
use crate::definition::error::{Error, ErrorView, errors_view};
use crate::definition::rules::enum_value_definition_uniqueness::{
    enum_value_definition_uniqueness, enum_value_duplicates,
};
use crate::definition::rules::input_field_definition_uniqueness::{
    input_field_definition_uniqueness, input_field_duplicates,
};
use crate::definition::rules::input_object_circular_references::{
    seen_view, visit_for_circular_references, visit_references,
};
use crate::schema::{SchemaDefinition, TypeDefinition, TypeDefinitionKind, TypeReference};

verus! {

pub open spec fn enum_errors<'a>(types: Seq<TypeDefinition>) -> Seq<ErrorView<'a>>
    decreases types.len(),
{
    if types.len() == 0 {
        Seq::empty()
    } else {
        enum_errors(types.drop_last()) + match types.last().kind {
            TypeDefinitionKind::Enum { values } => enum_value_duplicates(values@),
            _ => Seq::empty(),
        }
    }
}

pub open spec fn input_field_errors<'a>(types: Seq<TypeDefinition>) -> Seq<ErrorView<'a>>
    decreases types.len(),
{
    if types.len() == 0 {
        Seq::empty()
    } else {
        input_field_errors(types.drop_last()) + match types.last().kind {
            TypeDefinitionKind::InputObject { fields } => input_field_duplicates(fields@),
            _ => Seq::empty(),
        }
    }
}

/// The circular reference errors of the first `k` type definitions.
pub open spec fn circular_errors<'a>(schema: &'a SchemaDefinition, k: nat) -> Seq<ErrorView<'a>>
    decreases k,
{
    if k == 0 || k > schema.types@.len() {
        Seq::empty()
    } else {
        let t = schema.types@[k - 1];
        circular_errors(schema, (k - 1) as nat) + if t.kind is InputObject {
            let refs = visit_references(schema, t.name@, k - 1, Seq::empty()).0;
            if refs.len() > 0 {
                seq![
                    ErrorView::InputObjectTypeDefinitionCircularReferences {
                        input_object_type_definition: &schema.types@[k - 1],
                        circular_references: refs,
                    },
                ]
            } else {
                Seq::empty()
            }
        } else {
            Seq::empty()
        }
    }
}

/// The errors of the built-in rules.
pub open spec fn validation_errors<'a>(schema: &'a SchemaDefinition) -> Seq<ErrorView<'a>> {
    enum_errors(schema.types@) + input_field_errors(schema.types@) + circular_errors(
        schema,
        schema.types@.len(),
    )
}

/// Validates a schema definition with the built-in rules.
pub fn validate<'a>(schema: &'a SchemaDefinition) -> (r: Vec<Error<'a>>)
    ensures
        errors_view(r@) == validation_errors(schema),
{
    let types = &schema.types;
    let mut errors: Vec<Error<'a>> = Vec::new();
    let mut i: usize = 0;
    proof { assert(errors_view(errors@) =~= enum_errors(types@.take(0))); }
    while i < types.len()
        invariant
            i <= types.len(),
            *types == schema.types,
            errors_view(errors@) == enum_errors(types@.take(i as int)),
        decreases types.len() - i,
    {
        proof {
            assert(types@.take(i + 1).drop_last() =~= types@.take(i as int));
            assert(types@.take(i + 1).last() == types@[i as int]);
        }
        let ghost before = errors_view(errors@);
        match &types[i].kind {
            TypeDefinitionKind::Enum { values } => enum_value_definition_uniqueness(values, &mut errors),
            _ => {
                proof { assert(errors_view(errors@) =~= before + Seq::<ErrorView<'a>>::empty()); }
            },
        }
        i += 1;
    }
    proof { assert(types@.take(i as int) =~= types@); }
    let ghost after_enums = errors_view(errors@);
    let mut i: usize = 0;
    proof { assert(after_enums + input_field_errors(types@.take(0)) =~= after_enums); }
    while i < types.len()
        invariant
            i <= types.len(),
            *types == schema.types,
            errors_view(errors@) == after_enums + input_field_errors(types@.take(i as int)),
        decreases types.len() - i,
    {
        proof {
            assert(types@.take(i + 1).drop_last() =~= types@.take(i as int));
            assert(types@.take(i + 1).last() == types@[i as int]);
        }
        let ghost before = errors_view(errors@);
        match &types[i].kind {
            TypeDefinitionKind::InputObject { fields } => input_field_definition_uniqueness(fields, &mut errors),
            _ => {},
        }
        i += 1;
        proof { assert(errors_view(errors@) =~= after_enums + input_field_errors(types@.take(i as int))); }
    }
    proof { assert(types@.take(i as int) =~= types@); }
    let ghost after_fields = errors_view(errors@);
    let mut i: usize = 0;
    proof { assert(after_fields + circular_errors(schema, 0) =~= after_fields); }
    while i < types.len()
        invariant
            i <= types.len(),
            *types == schema.types,
            errors_view(errors@) == after_fields + circular_errors(schema, i as nat),
        decreases types.len() - i,
    {
        let ghost before = errors_view(errors@);
        let t = &types[i];
        match &t.kind {
            TypeDefinitionKind::InputObject { .. } => {
                let mut circular: Vec<&'a TypeReference> = Vec::new();
                let mut seen: Vec<&'a String> = Vec::new();
                proof { assert(seen_view(seen@) =~= Seq::<Seq<char>>::empty()); }
                visit_for_circular_references(schema, &t.name, i, &mut circular, &mut seen);
                proof { assert(circular@ =~= visit_references(schema, t.name@, i as int, Seq::empty()).0); }
                if circular.len() > 0 {
                    errors.push(
                        Error::InputObjectTypeDefinitionCircularReferences {
                            input_object_type_definition: t,
                            circular_references: circular,
                        },
                    );
                    proof { assert(errors_view(errors@) =~= before.push(errors@.last()@)); }
                }
            },
            _ => {},
        }
        i += 1;
        proof { assert(errors_view(errors@) =~= after_fields + circular_errors(schema, i as nat)); }
    }
    errors
}

} // verus!
