//! The full report of each validation error: its message, an annotation of the part of
//! the document it is about, and annotations of further parts, each with its span.
use vstd::prelude::*;
use crate::document::OperationDefinition;
use crate::executable::document::error::Error;
use crate::executable::document::message::{
    display_name, location_name, spec_display_name, spec_location_name,
};
use crate::report::{
    Annotation, AnnotationView, ErrorReport, ErrorReportView, annotation, annotations_view,
    push_annotation,
};
use crate::value::Argument;

verus! {

/// An annotation for each operation of `ops` that has a name, at that name.
pub open spec fn operation_name_annotations<'a>(name: Seq<char>, ops: Seq<&'a OperationDefinition>) -> Seq<
    AnnotationView,
>
    decreases ops.len(),
{
    if ops.len() == 0 {
        Seq::empty()
    } else {
        operation_name_annotations(name, ops.drop_last()) + match ops.last().name_span {
            Some(span) => seq![
                AnnotationView {
                    message: "Operation definition with name "@ + "`"@ + name + "`"@,
                    span,
                },
            ],
            None => Seq::empty(),
        }
    }
}

/// An annotation for each anonymous operation, at its selection set.
pub open spec fn anonymous_operation_annotations<'a>(ops: Seq<&'a OperationDefinition>) -> Seq<AnnotationView> {
    ops.map_values(
        |o: &'a OperationDefinition|
            AnnotationView { message: "Anonymous operation definition"@, span: o.selection_set_span },
    )
}

/// An annotation for each argument, at its name.
pub open spec fn argument_annotations<'a>(name: Seq<char>, arguments: Seq<&'a Argument>) -> Seq<AnnotationView> {
    arguments.map_values(
        |a: &'a Argument| AnnotationView { message: "Argument with name "@ + "`"@ + name + "`"@, span: a.name_span },
    )
}

impl<'a> Error<'a> {
    /// The annotation of the part of the document the error is about, where there is one.
    pub open spec fn spec_primary_annotation(&self) -> Option<AnnotationView> {
        match self {
            Error::SubscriptionRootNotSingleField { operation } => Some(
                AnnotationView {
                    message: "Selection set contains multiple fields"@,
                    span: operation.selection_set_span,
                },
            ),
            Error::FieldDoesNotExistOnType { field, type_definition } => Some(
                AnnotationView {
                    message: "Field does not exist on type "@ + "`"@ + type_definition.name@ + "`"@,
                    span: field.name_span,
                },
            ),
            Error::FragmentDefinitionUnused { fragment_definition } => Some(
                AnnotationView {
                    message: "Fragment definition is unused"@,
                    span: fragment_definition.name_span,
                },
            ),
            Error::FragmentSpreadTargetUndefined { fragment_spread } => Some(
                AnnotationView {
                    message: "No fragment defined with this name"@,
                    span: fragment_spread.name_span,
                },
            ),
            Error::FragmentSpreadCycle { fragment_spread, .. } => Some(
                AnnotationView {
                    message: "Cycle introduced by fragment spread"@,
                    span: fragment_spread.name_span,
                },
            ),
            Error::FieldSelectionsDoNotMergeIncompatibleTypes { selection_set_span, .. } => Some(
                AnnotationView { message: "Fields in selection set do not merge"@, span: *selection_set_span },
            ),
            Error::FieldSelectionsDoNotMergeDifferingNames { selection_set_span, .. } => Some(
                AnnotationView { message: "Fields in selection set do not merge"@, span: *selection_set_span },
            ),
            Error::FieldSelectionsDoNotMergeDifferingArguments { selection_set_span, .. } => Some(
                AnnotationView { message: "Fields in selection set do not merge"@, span: *selection_set_span },
            ),
            Error::FragmentSpreadIsNotPossible { fragment_spread, parent_type } => Some(
                AnnotationView {
                    message: "Cannot be spread for type "@ + parent_type.name@,
                    span: fragment_spread.name_span,
                },
            ),
            Error::InlineFragmentSpreadIsNotPossible { inline_fragment, parent_type } => Some(
                AnnotationView {
                    message: "Cannot be spread for type "@ + parent_type.name@,
                    span: inline_fragment.span,
                },
            ),
            Error::DirectiveDoesNotExist { directive } => Some(
                AnnotationView {
                    message: "No directive definition with this name"@,
                    span: directive.name_span,
                },
            ),
            Error::DirectiveInInvalidLocation { directive, location, .. } => Some(
                AnnotationView {
                    message: "Cannot be used at location "@ + spec_location_name(*location),
                    span: directive.span,
                },
            ),
            _ => None,
        }
    }

    /// The annotations of further parts of the document.
    pub open spec fn spec_secondary_annotations(&self) -> Seq<AnnotationView> {
        match self {
            Error::NonUniqueOperationNames { name, operations } => operation_name_annotations(
                name@,
                operations@,
            ),
            Error::NotLoneAnonymousOperation { anonymous_operations } => anonymous_operation_annotations(
                anonymous_operations@,
            ),
            Error::FragmentSpreadCycle { fragment_definition, .. } => seq![
                AnnotationView {
                    message: "Affected fragment definition"@,
                    span: fragment_definition.name_span,
                },
            ],
            Error::FieldSelectionsDoNotMergeIncompatibleTypes {
                field_a,
                field_definition_a,
                field_b,
                field_definition_b,
                ..
            } => seq![
                AnnotationView {
                    message: "First field has type "@ + spec_display_name(field_definition_a.type_ref),
                    span: field_a.name_span,
                },
                AnnotationView {
                    message: "Second field has type "@ + spec_display_name(field_definition_b.type_ref),
                    span: field_b.name_span,
                },
            ],
            Error::FieldSelectionsDoNotMergeDifferingNames { field_a, field_b, .. } => seq![
                AnnotationView { message: "First field"@, span: field_a.name_span },
                AnnotationView { message: "Second field"@, span: field_b.name_span },
            ],
            Error::FieldSelectionsDoNotMergeDifferingArguments { field_a, field_b, .. } => seq![
                AnnotationView { message: "First field"@, span: field_a.name_span },
                AnnotationView { message: "Second field"@, span: field_b.name_span },
            ],
            Error::NonUniqueArgumentNames { name, arguments } => argument_annotations(name@, arguments@),
            _ => Seq::empty(),
        }
    }

    pub open spec fn spec_report(&self) -> ErrorReportView {
        ErrorReportView {
            message: self.spec_message(),
            primary_annotation: self.spec_primary_annotation(),
            secondary_annotations: self.spec_secondary_annotations(),
        }
    }
}

fn text(s: &str) -> (r: String)
    ensures
        r@ == s@,
{
    String::from_str(s)
}

/// `prefix`, `name` in backquotes.
fn quoted_text(prefix: &str, name: &str) -> (r: String)
    ensures
        r@ == prefix@ + "`"@ + name@ + "`"@,
{
    let mut r = String::from_str(prefix);
    r.append("`");
    r.append(name);
    r.append("`");
    r
}

fn primary_annotation<'a>(e: &Error<'a>) -> (r: Option<Annotation>)
    ensures
        match r {
            Some(a) => e.spec_primary_annotation() == Some(a@),
            None => e.spec_primary_annotation() is None,
        },
{
    match e {
        Error::SubscriptionRootNotSingleField { operation } => Some(
            annotation(text("Selection set contains multiple fields"), operation.selection_set_span),
        ),
        Error::FieldDoesNotExistOnType { field, type_definition } => {
            let m = quoted_text("Field does not exist on type ", type_definition.name.as_str());
            proof { assert(m@ =~= "Field does not exist on type "@ + "`"@ + type_definition.name@ + "`"@); }
            Some(annotation(m, field.name_span))
        },
        Error::FragmentDefinitionUnused { fragment_definition } => Some(
            annotation(text("Fragment definition is unused"), fragment_definition.name_span),
        ),
        Error::FragmentSpreadTargetUndefined { fragment_spread } => Some(
            annotation(text("No fragment defined with this name"), fragment_spread.name_span),
        ),
        Error::FragmentSpreadCycle { fragment_spread, .. } => Some(
            annotation(text("Cycle introduced by fragment spread"), fragment_spread.name_span),
        ),
        Error::FieldSelectionsDoNotMergeIncompatibleTypes { selection_set_span, .. } => Some(
            annotation(text("Fields in selection set do not merge"), *selection_set_span),
        ),
        Error::FieldSelectionsDoNotMergeDifferingNames { selection_set_span, .. } => Some(
            annotation(text("Fields in selection set do not merge"), *selection_set_span),
        ),
        Error::FieldSelectionsDoNotMergeDifferingArguments { selection_set_span, .. } => Some(
            annotation(text("Fields in selection set do not merge"), *selection_set_span),
        ),
        Error::FragmentSpreadIsNotPossible { fragment_spread, parent_type } => {
            let mut m = text("Cannot be spread for type ");
            m.append(parent_type.name.as_str());
            Some(annotation(m, fragment_spread.name_span))
        },
        Error::InlineFragmentSpreadIsNotPossible { inline_fragment, parent_type } => {
            let mut m = text("Cannot be spread for type ");
            m.append(parent_type.name.as_str());
            Some(annotation(m, inline_fragment.span))
        },
        Error::DirectiveDoesNotExist { directive } => Some(
            annotation(text("No directive definition with this name"), directive.name_span),
        ),
        Error::DirectiveInInvalidLocation { directive, location, .. } => {
            let mut m = text("Cannot be used at location ");
            m.append(location_name(*location));
            Some(annotation(m, directive.span))
        },
        _ => None,
    }
}

fn secondary_annotations<'a>(e: &Error<'a>) -> (r: Vec<Annotation>)
    ensures
        annotations_view(r@) == e.spec_secondary_annotations(),
{
    let mut r: Vec<Annotation> = Vec::new();
    match e {
        Error::NonUniqueOperationNames { name, operations } => {
            let mut i: usize = 0;
            while i < operations.len()
                invariant
                    i <= operations.len(),
                    annotations_view(r@) == operation_name_annotations(name@, operations@.take(i as int)),
                decreases operations.len() - i,
            {
                proof {
                    assert(operations@.take(i + 1).drop_last() =~= operations@.take(i as int));
                    assert(operations@.take(i + 1).last() == operations@[i as int]);
                }
                match operations[i].name_span {
                    Some(span) => {
                        let m = quoted_text("Operation definition with name ", name.as_str());
                        push_annotation(&mut r, annotation(m, span));
                    },
                    None => {},
                }
                proof {
                    assert(annotations_view(r@) =~= operation_name_annotations(
                        name@,
                        operations@.take(i + 1),
                    ));
                }
                i += 1;
            }
            proof { assert(operations@.take(i as int) =~= operations@); }
        },
        Error::NotLoneAnonymousOperation { anonymous_operations } => {
            let mut i: usize = 0;
            while i < anonymous_operations.len()
                invariant
                    i <= anonymous_operations.len(),
                    annotations_view(r@) == anonymous_operation_annotations(
                        anonymous_operations@.take(i as int),
                    ),
                decreases anonymous_operations.len() - i,
            {
                push_annotation(
                    &mut r,
                    annotation(
                        text("Anonymous operation definition"),
                        anonymous_operations[i].selection_set_span,
                    ),
                );
                i += 1;
                proof {
                    assert(annotations_view(r@) =~= anonymous_operation_annotations(
                        anonymous_operations@.take(i as int),
                    ));
                }
            }
            proof { assert(anonymous_operations@.take(i as int) =~= anonymous_operations@); }
        },
        Error::FragmentSpreadCycle { fragment_definition, .. } => {
            push_annotation(&mut r, annotation(text("Affected fragment definition"), fragment_definition.name_span));
            proof { assert(annotations_view(r@) =~= e.spec_secondary_annotations()); }
        },
        Error::FieldSelectionsDoNotMergeIncompatibleTypes {
            field_a,
            field_definition_a,
            field_b,
            field_definition_b,
            ..
        } => {
            let mut first = text("First field has type ");
            let a = display_name(&field_definition_a.type_ref);
            first.append(a.as_str());
            push_annotation(&mut r, annotation(first, field_a.name_span));
            let mut second = text("Second field has type ");
            let b = display_name(&field_definition_b.type_ref);
            second.append(b.as_str());
            push_annotation(&mut r, annotation(second, field_b.name_span));
            proof { assert(annotations_view(r@) =~= e.spec_secondary_annotations()); }
        },
        Error::FieldSelectionsDoNotMergeDifferingNames { field_a, field_b, .. } => {
            push_annotation(&mut r, annotation(text("First field"), field_a.name_span));
            push_annotation(&mut r, annotation(text("Second field"), field_b.name_span));
            proof { assert(annotations_view(r@) =~= e.spec_secondary_annotations()); }
        },
        Error::FieldSelectionsDoNotMergeDifferingArguments { field_a, field_b, .. } => {
            push_annotation(&mut r, annotation(text("First field"), field_a.name_span));
            push_annotation(&mut r, annotation(text("Second field"), field_b.name_span));
            proof { assert(annotations_view(r@) =~= e.spec_secondary_annotations()); }
        },
        Error::NonUniqueArgumentNames { name, arguments } => {
            let mut i: usize = 0;
            while i < arguments.len()
                invariant
                    i <= arguments.len(),
                    annotations_view(r@) == argument_annotations(name@, arguments@.take(i as int)),
                decreases arguments.len() - i,
            {
                let m = quoted_text("Argument with name ", name.as_str());
                push_annotation(&mut r, annotation(m, arguments[i].name_span));
                i += 1;
                proof {
                    assert(annotations_view(r@) =~= argument_annotations(name@, arguments@.take(i as int)));
                }
            }
            proof { assert(arguments@.take(i as int) =~= arguments@); }
        },
        _ => {
            proof { assert(annotations_view(r@) =~= e.spec_secondary_annotations()); }
        },
    }
    r
}

/// The report of an error: its message, the annotation of the part of the document it
/// is about, and the annotations of further parts.
pub fn error_report<'a>(e: &Error<'a>) -> (r: ErrorReport)
    ensures
        r@ == e.spec_report(),
{
    ErrorReport {
        message: e.message(),
        primary_annotation: primary_annotation(e),
        secondary_annotations: secondary_annotations(e),
    }
}

} // verus!
