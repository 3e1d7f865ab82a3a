//! Validates an executable document against a schema with the built-in rules: the
//! errors of each rule in turn, in the order the rules are listed.
use vstd::prelude::*;
use crate::document::ExecutableDocument;
use crate::executable::document::error::{Error, ErrorView, errors_view};
use crate::executable::document::rules::all_variable_usages_allowed::{
    all_variable_usages_allowed, all_variable_usages_allowed_errors,
};
use crate::executable::document::rules::all_variables_used::{all_variables_used, all_variables_used_errors};
use crate::executable::document::rules::argument_uniqueness::{argument_uniqueness, argument_uniqueness_errors};
use crate::executable::document::rules::directives_are_defined::{
    directives_are_defined, directives_are_defined_errors,
};
use crate::executable::document::rules::directives_are_in_valid_locations::{
    directives_are_in_valid_locations, directives_are_in_valid_locations_errors,
};
use crate::executable::document::rules::field_selection_merging::{
    field_selection_merging, field_selection_merging_errors,
};
use crate::executable::document::rules::field_selections::{field_selections, field_selections_errors};
use crate::executable::document::rules::fragment_spread_is_possible::{
    fragment_spread_is_possible, fragment_spread_is_possible_errors,
};
use crate::executable::document::rules::fragment_spread_target_defined::{
    fragment_spread_target_defined, fragment_spread_target_defined_errors,
};
use crate::executable::document::rules::fragment_spreads_must_not_form_cycles::{
    fragment_spread_cycles, fragment_spreads_must_not_form_cycles,
};
use crate::executable::document::rules::fragments_must_be_used::{
    fragments_must_be_used, fragments_must_be_used_errors,
};
use crate::executable::document::rules::lone_anonymous_operation::{
    lone_anonymous_operation, lone_anonymous_operation_errors,
};
use crate::executable::document::rules::named_operation_name_uniqueness::{
    named_operation_name_uniqueness, named_operation_name_uniqueness_errors,
};
use crate::executable::document::rules::subscription_operation_single_root_field::{
    subscription_operation_single_root_field, subscription_operation_single_root_field_errors,
};
use crate::executable::document::rules::variable_uniqueness::{variable_uniqueness, variable_uniqueness_errors};
use crate::schema::SchemaDefinition;

verus! {

/// The errors of the built-in rules, rule after rule.
pub open spec fn builtin_rules_errors<'a>(
    document: &'a ExecutableDocument,
    schema: &'a SchemaDefinition,
) -> Seq<ErrorView<'a>> {
    named_operation_name_uniqueness_errors(*document) + lone_anonymous_operation_errors(*document)
        + subscription_operation_single_root_field_errors(*document) + field_selections_errors(schema, document)
        + field_selection_merging_errors(schema, document) + argument_uniqueness_errors(schema, document)
        + fragments_must_be_used_errors(*document) + fragment_spread_target_defined_errors(*document)
        + fragment_spread_cycles(*document) + fragment_spread_is_possible_errors(schema, document)
        + directives_are_defined_errors(schema, document) + directives_are_in_valid_locations_errors(
        schema,
        document,
    ) + variable_uniqueness_errors(*document) + all_variables_used_errors(*document)
        + all_variable_usages_allowed_errors(schema, document)
}

fn append<'a>(errors: &mut Vec<Error<'a>>, more: Vec<Error<'a>>)
    ensures
        errors_view(final(errors)@) == errors_view(old(errors)@) + errors_view(more@),
{
    let mut more = more;
    let ghost a = errors@;
    let ghost b = more@;
    errors.append(&mut more);
    proof { assert(errors_view(errors@) =~= errors_view(a) + errors_view(b)); }
}

/// Validates a document with the built-in rules.
pub fn validate<'a>(document: &'a ExecutableDocument, schema: &'a SchemaDefinition) -> (r: Vec<Error<'a>>)
    requires
        document.wf(),
        schema.wf(),
    ensures
        errors_view(r@) == builtin_rules_errors(document, schema),
{
    let mut errors = named_operation_name_uniqueness(document);
    append(&mut errors, lone_anonymous_operation(document));
    append(&mut errors, subscription_operation_single_root_field(document));
    append(&mut errors, field_selections(document, schema));
    append(&mut errors, field_selection_merging(document, schema));
    append(&mut errors, argument_uniqueness(document, schema));
    append(&mut errors, fragments_must_be_used(document));
    append(&mut errors, fragment_spread_target_defined(document));
    append(&mut errors, fragment_spreads_must_not_form_cycles(document));
    append(&mut errors, fragment_spread_is_possible(document, schema));
    append(&mut errors, directives_are_defined(document, schema));
    append(&mut errors, directives_are_in_valid_locations(document, schema));
    append(&mut errors, variable_uniqueness(document));
    append(&mut errors, all_variables_used(document));
    append(&mut errors, all_variable_usages_allowed(document, schema));
    errors
}

} // verus!
