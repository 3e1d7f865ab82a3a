//! The errors that the validation rules of executable documents report. Each refers to
//! the parts of the document it concerns.
use vstd::prelude::*;
use crate::document::{
    Field, FragmentDefinition, FragmentSpread, InlineFragment, OperationDefinition, Selection,
    VariableDefinition,
};
use crate::schema::{
    DirectiveDefinition, DirectiveLocation, FieldDefinition, TypeDefinition, TypeReference,
};
use crate::value::{Argument, Directive, Span};

verus! {

pub enum Error<'a> {
    /// Several operations share a name.
    NonUniqueOperationNames { name: &'a String, operations: Vec<&'a OperationDefinition> },
    /// An anonymous operation is not the only operation of the document.
    NotLoneAnonymousOperation { anonymous_operations: Vec<&'a OperationDefinition> },
    /// A subscription does not select exactly one root field.
    SubscriptionRootNotSingleField { operation: &'a OperationDefinition },
    /// No fragment spread refers to the fragment.
    FragmentDefinitionUnused { fragment_definition: &'a FragmentDefinition },
    /// A fragment spread refers to no fragment definition.
    FragmentSpreadTargetUndefined { fragment_spread: &'a FragmentSpread },
    /// A fragment reaches itself through this spread.
    FragmentSpreadCycle {
        fragment_definition: &'a FragmentDefinition,
        fragment_spread: &'a FragmentSpread,
    },
    /// Several variable definitions of one operation share a name.
    NonUniqueVariableDefinitionNames {
        name: &'a String,
        variable_definitions: Vec<&'a VariableDefinition>,
    },
    /// The operation never uses the variable.
    VariableDefinitionUnused { variable_definition: &'a VariableDefinition },
    /// A variable is used where its type does not fit.
    InvalidVariableUsage {
        variable: &'a String,
        variable_type: &'a TypeReference,
        location_type: &'a TypeReference,
    },
    /// A nullable variable is used for a field of a `@oneOf` input object.
    InvalidOneOfVariableUsage {
        variable: &'a String,
        variable_type: &'a TypeReference,
        parent_type_name: &'a String,
    },
    /// The type a selection set is scoped to defines no field of this name.
    FieldDoesNotExistOnType { field: &'a Field, type_definition: &'a TypeDefinition },
    /// No object can be both of the enclosing type and of the fragment's type.
    FragmentSpreadIsNotPossible { fragment_spread: &'a FragmentSpread, parent_type: &'a TypeDefinition },
    /// No object can be both of the enclosing type and of the inline fragment's type.
    InlineFragmentSpreadIsNotPossible {
        inline_fragment: &'a InlineFragment,
        parent_type: &'a TypeDefinition,
    },
    /// Two fields under one response name have types of different shapes.
    FieldSelectionsDoNotMergeIncompatibleTypes {
        selection_set: &'a Vec<Selection>,
        selection_set_span: Span,
        field_a: &'a Field,
        field_definition_a: &'a FieldDefinition,
        field_b: &'a Field,
        field_definition_b: &'a FieldDefinition,
    },
    /// Two fields under one response name on one parent type select different fields.
    FieldSelectionsDoNotMergeDifferingNames {
        selection_set: &'a Vec<Selection>,
        selection_set_span: Span,
        field_a: &'a Field,
        field_b: &'a Field,
    },
    /// Two fields under one response name on one parent type have different arguments.
    FieldSelectionsDoNotMergeDifferingArguments {
        selection_set: &'a Vec<Selection>,
        selection_set_span: Span,
        field_a: &'a Field,
        field_b: &'a Field,
    },
    /// The schema defines no directive of this name.
    DirectiveDoesNotExist { directive: &'a Directive },
    /// The directive is used at a location its definition does not allow.
    DirectiveInInvalidLocation {
        directive: &'a Directive,
        directive_definition: &'a DirectiveDefinition,
        location: DirectiveLocation,
    },
    /// Several arguments of one field or directive share a name.
    NonUniqueArgumentNames { name: &'a String, arguments: Vec<&'a Argument> },
}

/// An error with its lists taken as sequences.
pub enum ErrorView<'a> {
    NonUniqueOperationNames { name: Seq<char>, operations: Seq<&'a OperationDefinition> },
    NotLoneAnonymousOperation { anonymous_operations: Seq<&'a OperationDefinition> },
    SubscriptionRootNotSingleField { operation: &'a OperationDefinition },
    FragmentDefinitionUnused { fragment_definition: &'a FragmentDefinition },
    FragmentSpreadTargetUndefined { fragment_spread: &'a FragmentSpread },
    FragmentSpreadCycle {
        fragment_definition: &'a FragmentDefinition,
        fragment_spread: &'a FragmentSpread,
    },
    NonUniqueVariableDefinitionNames {
        name: Seq<char>,
        variable_definitions: Seq<&'a VariableDefinition>,
    },
    VariableDefinitionUnused { variable_definition: &'a VariableDefinition },
    InvalidVariableUsage {
        variable: Seq<char>,
        variable_type: &'a TypeReference,
        location_type: &'a TypeReference,
    },
    InvalidOneOfVariableUsage {
        variable: Seq<char>,
        variable_type: &'a TypeReference,
        parent_type_name: Seq<char>,
    },
    FieldDoesNotExistOnType { field: &'a Field, type_definition: &'a TypeDefinition },
    FragmentSpreadIsNotPossible { fragment_spread: &'a FragmentSpread, parent_type: &'a TypeDefinition },
    InlineFragmentSpreadIsNotPossible {
        inline_fragment: &'a InlineFragment,
        parent_type: &'a TypeDefinition,
    },
    FieldSelectionsDoNotMergeIncompatibleTypes {
        selection_set: &'a Vec<Selection>,
        selection_set_span: Span,
        field_a: &'a Field,
        field_definition_a: &'a FieldDefinition,
        field_b: &'a Field,
        field_definition_b: &'a FieldDefinition,
    },
    FieldSelectionsDoNotMergeDifferingNames {
        selection_set: &'a Vec<Selection>,
        selection_set_span: Span,
        field_a: &'a Field,
        field_b: &'a Field,
    },
    FieldSelectionsDoNotMergeDifferingArguments {
        selection_set: &'a Vec<Selection>,
        selection_set_span: Span,
        field_a: &'a Field,
        field_b: &'a Field,
    },
    DirectiveDoesNotExist { directive: &'a Directive },
    DirectiveInInvalidLocation {
        directive: &'a Directive,
        directive_definition: &'a DirectiveDefinition,
        location: DirectiveLocation,
    },
    NonUniqueArgumentNames { name: Seq<char>, arguments: Seq<&'a Argument> },
}

impl<'a> View for Error<'a> {
    type V = ErrorView<'a>;

    open spec fn view(&self) -> ErrorView<'a> {
        match self {
            Error::NonUniqueOperationNames { name, operations } => ErrorView::NonUniqueOperationNames {
                name: name@,
                operations: operations@,
            },
            Error::NotLoneAnonymousOperation { anonymous_operations } => ErrorView::NotLoneAnonymousOperation {
                anonymous_operations: anonymous_operations@,
            },
            Error::SubscriptionRootNotSingleField { operation } => ErrorView::SubscriptionRootNotSingleField {
                operation,
            },
            Error::FragmentDefinitionUnused { fragment_definition } => ErrorView::FragmentDefinitionUnused {
                fragment_definition,
            },
            Error::FragmentSpreadTargetUndefined { fragment_spread } => ErrorView::FragmentSpreadTargetUndefined {
                fragment_spread,
            },
            Error::FragmentSpreadCycle { fragment_definition, fragment_spread } => ErrorView::FragmentSpreadCycle {
                fragment_definition,
                fragment_spread,
            },
            Error::NonUniqueVariableDefinitionNames { name, variable_definitions } => ErrorView::NonUniqueVariableDefinitionNames {
                name: name@,
                variable_definitions: variable_definitions@,
            },
            Error::VariableDefinitionUnused { variable_definition } => ErrorView::VariableDefinitionUnused {
                variable_definition,
            },
            Error::InvalidVariableUsage { variable, variable_type, location_type } => ErrorView::InvalidVariableUsage {
                variable: variable@,
                variable_type,
                location_type,
            },
            Error::InvalidOneOfVariableUsage { variable, variable_type, parent_type_name } => ErrorView::InvalidOneOfVariableUsage {
                variable: variable@,
                variable_type,
                parent_type_name: parent_type_name@,
            },
            Error::FieldDoesNotExistOnType { field, type_definition } => ErrorView::FieldDoesNotExistOnType {
                field,
                type_definition,
            },
            Error::FragmentSpreadIsNotPossible { fragment_spread, parent_type } => ErrorView::FragmentSpreadIsNotPossible {
                fragment_spread,
                parent_type,
            },
            Error::InlineFragmentSpreadIsNotPossible { inline_fragment, parent_type } => ErrorView::InlineFragmentSpreadIsNotPossible {
                inline_fragment,
                parent_type,
            },
            Error::FieldSelectionsDoNotMergeIncompatibleTypes {
                selection_set,
                selection_set_span,
                field_a,
                field_definition_a,
                field_b,
                field_definition_b,
            } => ErrorView::FieldSelectionsDoNotMergeIncompatibleTypes {
                selection_set,
                selection_set_span: *selection_set_span,
                field_a,
                field_definition_a,
                field_b,
                field_definition_b,
            },
            Error::FieldSelectionsDoNotMergeDifferingNames { selection_set, selection_set_span, field_a, field_b } => ErrorView::FieldSelectionsDoNotMergeDifferingNames {
                selection_set,
                selection_set_span: *selection_set_span,
                field_a,
                field_b,
            },
            Error::FieldSelectionsDoNotMergeDifferingArguments { selection_set, selection_set_span, field_a, field_b } => ErrorView::FieldSelectionsDoNotMergeDifferingArguments {
                selection_set,
                selection_set_span: *selection_set_span,
                field_a,
                field_b,
            },
            Error::DirectiveDoesNotExist { directive } => ErrorView::DirectiveDoesNotExist { directive },
            Error::DirectiveInInvalidLocation { directive, directive_definition, location } => ErrorView::DirectiveInInvalidLocation {
                directive,
                directive_definition,
                location: *location,
            },
            Error::NonUniqueArgumentNames { name, arguments } => ErrorView::NonUniqueArgumentNames {
                name: name@,
                arguments: arguments@,
            },
        }
    }
}

pub open spec fn errors_view<'a>(errors: Seq<Error<'a>>) -> Seq<ErrorView<'a>> {
    errors.map_values(|e: Error<'a>| e@)
}

} // verus!
