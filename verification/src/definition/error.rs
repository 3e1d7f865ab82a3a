//! The errors that the validation rules of schema definitions report.
use vstd::prelude::*;
use crate::schema::{EnumValueDefinition, InputValueDefinition, TypeDefinition, TypeReference};

verus! {

pub enum Error<'a> {
    /// Several fields of one input object type share a name.
    NonUniqueInputValueDefinitionNames {
        name: &'a String,
        input_value_definitions: Vec<&'a InputValueDefinition>,
    },
    /// Several values of one enum type share a name.
    NonUniqueEnumValueDefinitionNames {
        name: &'a String,
        enum_value_definitions: Vec<&'a EnumValueDefinition>,
    },
    /// An input object type reaches itself through non-null fields; the types of the
    /// fields that close a cycle are listed.
    InputObjectTypeDefinitionCircularReferences {
        input_object_type_definition: &'a TypeDefinition,
        circular_references: Vec<&'a TypeReference>,
    },
}

/// An error with its lists taken as sequences.
pub enum ErrorView<'a> {
    NonUniqueInputValueDefinitionNames {
        name: Seq<char>,
        input_value_definitions: Seq<&'a InputValueDefinition>,
    },
    NonUniqueEnumValueDefinitionNames {
        name: Seq<char>,
        enum_value_definitions: Seq<&'a EnumValueDefinition>,
    },
    InputObjectTypeDefinitionCircularReferences {
        input_object_type_definition: &'a TypeDefinition,
        circular_references: Seq<&'a TypeReference>,
    },
}

impl<'a> View for Error<'a> {
    type V = ErrorView<'a>;

    open spec fn view(&self) -> ErrorView<'a> {
        match self {
            Error::NonUniqueInputValueDefinitionNames { name, input_value_definitions } => ErrorView::NonUniqueInputValueDefinitionNames {
                name: name@,
                input_value_definitions: input_value_definitions@,
            },
            Error::NonUniqueEnumValueDefinitionNames { name, enum_value_definitions } => ErrorView::NonUniqueEnumValueDefinitionNames {
                name: name@,
                enum_value_definitions: enum_value_definitions@,
            },
            Error::InputObjectTypeDefinitionCircularReferences {
                input_object_type_definition,
                circular_references,
            } => ErrorView::InputObjectTypeDefinitionCircularReferences {
                input_object_type_definition,
                circular_references: circular_references@,
            },
        }
    }
}

pub open spec fn errors_view<'a>(errors: Seq<Error<'a>>) -> Seq<ErrorView<'a>> {
    errors.map_values(|e: Error<'a>| e@)
}

} // verus!
