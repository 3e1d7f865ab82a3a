//! The full report of each schema validation error: its message and the annotations of
//! the definitions it concerns, each with its span.
use vstd::prelude::*;
use crate::definition::error::Error;
use crate::report::{
    Annotation, AnnotationView, ErrorReport, ErrorReportView, annotation, annotations_view,
    push_annotation,
};
use crate::schema::{EnumValueDefinition, InputValueDefinition};

verus! {

/// An annotation for each input value definition, at its name.
pub open spec fn input_value_annotations<'a>(name: Seq<char>, ivds: Seq<&'a InputValueDefinition>) -> Seq<
    AnnotationView,
> {
    ivds.map_values(
        |d: &'a InputValueDefinition|
            AnnotationView {
                message: "Input value definition with name "@ + "`"@ + name + "`"@,
                span: d.name_span,
            },
    )
}

/// An annotation for each enum value definition, at its name.
pub open spec fn enum_value_annotations<'a>(name: Seq<char>, evds: Seq<&'a EnumValueDefinition>) -> Seq<
    AnnotationView,
> {
    evds.map_values(
        |d: &'a EnumValueDefinition|
            AnnotationView {
                message: "Enum value definition with name "@ + "`"@ + name + "`"@,
                span: d.name_span,
            },
    )
}

impl<'a> Error<'a> {
    pub open spec fn spec_secondary_annotations(&self) -> Seq<AnnotationView> {
        match self {
            Error::NonUniqueInputValueDefinitionNames { name, input_value_definitions } => input_value_annotations(
                name@,
                input_value_definitions@,
            ),
            Error::NonUniqueEnumValueDefinitionNames { name, enum_value_definitions } => enum_value_annotations(
                name@,
                enum_value_definitions@,
            ),
            Error::InputObjectTypeDefinitionCircularReferences { .. } => Seq::empty(),
        }
    }

    /// The report of the error: its message, no primary annotation, and an annotation
    /// of each definition that shares the name.
    pub open spec fn spec_report(&self) -> ErrorReportView {
        ErrorReportView {
            message: self.spec_message(),
            primary_annotation: None,
            secondary_annotations: self.spec_secondary_annotations(),
        }
    }
}

fn named_annotation(prefix: &str, name: &String, span: crate::value::Span) -> (r: Annotation)
    ensures
        r@ == (AnnotationView { message: prefix@ + "`"@ + name@ + "`"@, span }),
{
    let mut m = String::from_str(prefix);
    m.append("`");
    m.append(name.as_str());
    m.append("`");
    annotation(m, span)
}

/// The report of a schema error.
pub fn error_report<'a>(e: &Error<'a>) -> (r: ErrorReport)
    ensures
        r@ == e.spec_report(),
{
    let mut list: Vec<Annotation> = Vec::new();
    match e {
        Error::NonUniqueInputValueDefinitionNames { name, input_value_definitions } => {
            let ds = input_value_definitions;
            let mut i: usize = 0;
            while i < ds.len()
                invariant
                    i <= ds.len(),
                    annotations_view(list@) == input_value_annotations(name@, ds@.take(i as int)),
                decreases ds.len() - i,
            {
                push_annotation(&mut list, named_annotation("Input value definition with name ", name, ds[i].name_span));
                i += 1;
                proof { assert(annotations_view(list@) =~= input_value_annotations(name@, ds@.take(i as int))); }
            }
            proof { assert(ds@.take(i as int) =~= ds@); }
        },
        Error::NonUniqueEnumValueDefinitionNames { name, enum_value_definitions } => {
            let ds = enum_value_definitions;
            let mut i: usize = 0;
            while i < ds.len()
                invariant
                    i <= ds.len(),
                    annotations_view(list@) == enum_value_annotations(name@, ds@.take(i as int)),
                decreases ds.len() - i,
            {
                push_annotation(&mut list, named_annotation("Enum value definition with name ", name, ds[i].name_span));
                i += 1;
                proof { assert(annotations_view(list@) =~= enum_value_annotations(name@, ds@.take(i as int))); }
            }
            proof { assert(ds@.take(i as int) =~= ds@); }
        },
        Error::InputObjectTypeDefinitionCircularReferences { .. } => {
            proof { assert(annotations_view(list@) =~= Seq::<AnnotationView>::empty()); }
        },
    }
    ErrorReport { message: e.message(), primary_annotation: None, secondary_annotations: list }
}

} // verus!
