//! An anonymous operation must be the only operation of its document.
use vstd::prelude::*;
use crate::document::{ExecutableDocument, OperationDefinition};
use crate::executable::document::error::{Error, ErrorView, errors_view};

verus! {

/// The operations without a name, in order.
pub open spec fn anonymous_operations<'a>(ops: Seq<OperationDefinition>) -> Seq<&'a OperationDefinition>
    decreases ops.len(),
{
    if ops.len() == 0 {
        Seq::empty()
    } else {
        anonymous_operations(ops.drop_last()) + if ops.last().name is None {
            seq![&ops.last()]
        } else {
            Seq::empty()
        }
    }
}

/// One error listing the anonymous operations, when there are some and the document
/// does not hold exactly one operation.
pub open spec fn lone_anonymous_operation_errors<'a>(document: ExecutableDocument) -> Seq<ErrorView<'a>> {
    let anonymous = anonymous_operations(document.operation_definitions@);
    if document.operation_definitions@.len() != 1 && anonymous.len() > 0 {
        seq![ErrorView::NotLoneAnonymousOperation { anonymous_operations: anonymous }]
    } else {
        Seq::empty()
    }
}

pub fn lone_anonymous_operation<'a>(document: &'a ExecutableDocument) -> (r: Vec<Error<'a>>)
    ensures
        errors_view(r@) == lone_anonymous_operation_errors(*document),
{
    let ops = &document.operation_definitions;
    let mut anonymous: Vec<&'a OperationDefinition> = Vec::new();
    let mut i: usize = 0;
    while i < ops.len()
        invariant
            i <= ops.len(),
            *ops == document.operation_definitions,
            anonymous@ == anonymous_operations(ops@.take(i as int)),
        decreases ops.len() - i,
    {
        proof {
            assert(ops@.take(i + 1).drop_last() =~= ops@.take(i as int));
            assert(ops@.take(i + 1).last() == ops@[i as int]);
        }
        if ops[i].name.is_none() {
            anonymous.push(&ops[i]);
        }
        i += 1;
    }
    proof { assert(ops@.take(i as int) =~= ops@); }
    let mut errors: Vec<Error<'a>> = Vec::new();
    if ops.len() != 1 && anonymous.len() > 0 {
        errors.push(Error::NotLoneAnonymousOperation { anonymous_operations: anonymous });
        proof {
            assert(errors_view(errors@) =~= lone_anonymous_operation_errors(*document));
        }
    } else {
        proof {
            assert(errors_view(errors@) =~= lone_anonymous_operation_errors(*document));
        }
    }
    errors
}

} // verus!
