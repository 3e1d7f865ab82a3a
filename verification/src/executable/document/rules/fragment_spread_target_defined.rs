//! Every fragment spread must name a fragment defined in the document.
use vstd::prelude::*;
use crate::document::{ExecutableDocument, FragmentSpread};
use crate::executable::document::error::{Error, ErrorView, errors_view};
use crate::executable::document::traversal::{collect_document_spreads, document_spreads};

verus! {

pub open spec fn undefined_target_errors<'a>(document: ExecutableDocument, spreads: Seq<&'a FragmentSpread>) -> Seq<
    ErrorView<'a>,
>
    decreases spreads.len(),
{
    if spreads.len() == 0 {
        Seq::empty()
    } else {
        undefined_target_errors(document, spreads.drop_last()) + if document.fragment_index(
            spreads.last().name@,
        ) is None {
            seq![ErrorView::FragmentSpreadTargetUndefined { fragment_spread: spreads.last() }]
        } else {
            Seq::empty()
        }
    }
}

/// The errors of the rule: one for each spread of the document (see `document_spreads`)
/// whose fragment is not defined, in order.
pub open spec fn fragment_spread_target_defined_errors<'a>(document: ExecutableDocument) -> Seq<
    ErrorView<'a>,
> {
    undefined_target_errors(document, document_spreads(document))
}

pub fn fragment_spread_target_defined<'a>(document: &'a ExecutableDocument) -> (r: Vec<Error<'a>>)
    ensures
        errors_view(r@) == fragment_spread_target_defined_errors(*document),
{
    let spreads = collect_document_spreads(document);
    let mut errors: Vec<Error<'a>> = Vec::new();
    let mut i: usize = 0;
    while i < spreads.len()
        invariant
            i <= spreads.len(),
            errors_view(errors@) == undefined_target_errors(*document, spreads@.take(i as int)),
        decreases spreads.len() - i,
    {
        proof {
            assert(spreads@.take(i + 1).drop_last() =~= spreads@.take(i as int));
            assert(spreads@.take(i + 1).last() == spreads@[i as int]);
        }
        let spread: &'a FragmentSpread = spreads[i];
        let ghost before = errors@;
        if document.fragment_definition(&spread.name).is_none() {
            errors.push(Error::FragmentSpreadTargetUndefined { fragment_spread: spread });
        }
        proof {
            assert(errors_view(errors@) =~= undefined_target_errors(*document, spreads@.take(i + 1)));
        }
        i += 1;
    }
    proof { assert(spreads@.take(i as int) =~= spreads@); }
    errors
}

} // verus!
