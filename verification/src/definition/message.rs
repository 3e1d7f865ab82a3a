//! The text that describes each schema validation error.
use vstd::prelude::*;
use crate::definition::error::Error;

verus! {

impl<'a> Error<'a> {
    /// The message that describes the error.
    pub open spec fn spec_message(&self) -> Seq<char> {
        match self {
            Error::NonUniqueInputValueDefinitionNames { name, .. } => "Multiple input value definitions named `"@
                + name@ + "`"@,
            Error::NonUniqueEnumValueDefinitionNames { name, .. } => "Multiple enum value definitions named `"@
                + name@ + "`"@,
            Error::InputObjectTypeDefinitionCircularReferences { input_object_type_definition, .. } => "Input object type `"@
                + input_object_type_definition.name@
                + "` references itself through non-null fields"@,
        }
    }

    /// The message that describes the error.
    pub fn message(&self) -> (r: String)
        ensures
            r@ == self.spec_message(),
    {
        let (mut r, name, suffix) = match self {
            Error::NonUniqueInputValueDefinitionNames { name, .. } => (
                String::from_str("Multiple input value definitions named `"),
                *name,
                "`",
            ),
            Error::NonUniqueEnumValueDefinitionNames { name, .. } => (
                String::from_str("Multiple enum value definitions named `"),
                *name,
                "`",
            ),
            Error::InputObjectTypeDefinitionCircularReferences { input_object_type_definition, .. } => (
                String::from_str("Input object type `"),
                &input_object_type_definition.name,
                "` references itself through non-null fields",
            ),
        };
        r.append(name.as_str());
        r.append(suffix);
        r
    }
}

} // verus!
