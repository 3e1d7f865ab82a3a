//! How an error is reported to the author of a document or schema: a message, an
//! annotation of the place the error is about, and annotations of further places,
//! each a text with the span of the source it points at.
use vstd::prelude::*;
use crate::value::Span;

verus! {

pub struct Annotation {
    pub message: String,
    pub span: Span,
}

pub struct AnnotationView {
    pub message: Seq<char>,
    pub span: Span,
}

impl View for Annotation {
    type V = AnnotationView;

    open spec fn view(&self) -> AnnotationView {
        AnnotationView { message: self.message@, span: self.span }
    }
}

pub struct ErrorReport {
    pub message: String,
    pub primary_annotation: Option<Annotation>,
    pub secondary_annotations: Vec<Annotation>,
}

pub struct ErrorReportView {
    pub message: Seq<char>,
    pub primary_annotation: Option<AnnotationView>,
    pub secondary_annotations: Seq<AnnotationView>,
}

pub open spec fn annotations_view(a: Seq<Annotation>) -> Seq<AnnotationView> {
    a.map_values(|x: Annotation| x@)
}

impl View for ErrorReport {
    type V = ErrorReportView;

    open spec fn view(&self) -> ErrorReportView {
        ErrorReportView {
            message: self.message@,
            primary_annotation: match self.primary_annotation {
                Some(a) => Some(a@),
                None => None,
            },
            secondary_annotations: annotations_view(self.secondary_annotations@),
        }
    }
}

/// An annotation whose text is `message`.
pub fn annotation(message: String, span: Span) -> (r: Annotation)
    ensures
        r@ == (AnnotationView { message: message@, span }),
{
    Annotation { message, span }
}

/// Appends an annotation to a list of them.
pub fn push_annotation(list: &mut Vec<Annotation>, a: Annotation)
    ensures
        annotations_view(final(list)@) == annotations_view(old(list)@).push(a@),
{
    list.push(a);
    proof { assert(annotations_view(list@) =~= annotations_view(old(list)@).push(a@)); }
}

} // verus!
