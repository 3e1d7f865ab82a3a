//! A subscription must select exactly one root field: its selection set holds one
//! selection, and a fragment spread or inline fragment in that place holds one
//! selection itself. A spread refers here to the first fragment of its name; a
//! spread of no fragment is left to other rules.
use vstd::prelude::*;
use crate::common::{first_index, lemma_first_index, lemma_first_index_is, lemma_first_index_none};
use crate::document::{ExecutableDocument, FragmentDefinition, OperationDefinition, OperationType, Selection};
use crate::executable::document::error::{Error, ErrorView, errors_view};

verus! {

/// The first fragment definition with the given name.
pub open spec fn first_fragment_index(frags: Seq<FragmentDefinition>, name: Seq<char>) -> Option<int> {
    first_index(frags, |f: FragmentDefinition| f.name@ == name)
}

/// Whether a subscription selects other than exactly one root field.
pub open spec fn root_not_single_field(document: ExecutableDocument, op: OperationDefinition) -> bool {
    let sels = op.selection_set@;
    if sels.len() != 1 {
        true
    } else {
        match sels[0] {
            Selection::Field(_) => false,
            Selection::FragmentSpread(s) => match first_fragment_index(
                document.fragment_definitions@,
                s.name@,
            ) {
                Some(k) => document.fragment_definitions@[k].selection_set@.len() != 1,
                None => false,
            },
            Selection::InlineFragment(i) => i.selection_set@.len() != 1,
        }
    }
}

pub open spec fn subscription_errors<'a>(document: ExecutableDocument, ops: Seq<OperationDefinition>) -> Seq<
    ErrorView<'a>,
>
    decreases ops.len(),
{
    if ops.len() == 0 {
        Seq::empty()
    } else {
        let op = ops.last();
        subscription_errors(document, ops.drop_last()) + if op.operation_type == OperationType::Subscription
            && root_not_single_field(document, op) {
            seq![ErrorView::SubscriptionRootNotSingleField { operation: &op }]
        } else {
            Seq::empty()
        }
    }
}

/// The errors of the rule: one for each such subscription, in document order.
pub open spec fn subscription_operation_single_root_field_errors<'a>(document: ExecutableDocument) -> Seq<
    ErrorView<'a>,
> {
    subscription_errors(document, document.operation_definitions@)
}

fn find_first_fragment(frags: &Vec<FragmentDefinition>, name: &String) -> (r: Option<usize>)
    ensures
        r matches Some(k) ==> first_fragment_index(frags@, name@) == Some(k as int) && k < frags@.len(),
        r is None ==> first_fragment_index(frags@, name@) is None,
{
    let mut i: usize = 0;
    while i < frags.len()
        invariant
            i <= frags.len(),
            forall|j: int|
                0 <= j < i ==> !((|f: FragmentDefinition| f.name@ == name@)(#[trigger] frags@[j])),
        decreases frags.len() - i,
    {
        if frags[i].name == *name {
            proof { lemma_first_index_is(frags@, |f: FragmentDefinition| f.name@ == name@, i as int); }
            return Some(i);
        }
        i += 1;
    }
    proof { lemma_first_index_none(frags@, |f: FragmentDefinition| f.name@ == name@); }
    None
}

fn root_is_not_single_field(document: &ExecutableDocument, op: &OperationDefinition) -> (r: bool)
    ensures
        r == root_not_single_field(*document, *op),
{
    let sels = &op.selection_set;
    if sels.len() != 1 {
        return true;
    }
    match &sels[0] {
        Selection::Field(_) => false,
        Selection::FragmentSpread(s) => match find_first_fragment(&document.fragment_definitions, &s.name) {
            Some(k) => document.fragment_definitions[k].selection_set.len() != 1,
            None => false,
        },
        Selection::InlineFragment(i) => i.selection_set.len() != 1,
    }
}

pub fn subscription_operation_single_root_field<'a>(document: &'a ExecutableDocument) -> (r: Vec<
    Error<'a>,
>)
    ensures
        errors_view(r@) == subscription_operation_single_root_field_errors(*document),
{
    let ops = &document.operation_definitions;
    let mut errors: Vec<Error<'a>> = Vec::new();
    let mut i: usize = 0;
    while i < ops.len()
        invariant
            i <= ops.len(),
            *ops == document.operation_definitions,
            errors_view(errors@) == subscription_errors(*document, ops@.take(i as int)),
        decreases ops.len() - i,
    {
        proof {
            assert(ops@.take(i + 1).drop_last() =~= ops@.take(i as int));
            assert(ops@.take(i + 1).last() == ops@[i as int]);
        }
        let op = &ops[i];
        let ghost before = errors@;
        if op.operation_type == OperationType::Subscription && root_is_not_single_field(document, op) {
            errors.push(Error::SubscriptionRootNotSingleField { operation: op });
        }
        proof {
            assert(errors_view(errors@) =~= subscription_errors(*document, ops@.take(i + 1)));
        }
        i += 1;
    }
    proof { assert(ops@.take(i as int) =~= ops@); }
    errors
}

} // verus!
