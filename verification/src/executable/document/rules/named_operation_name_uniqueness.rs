//! Operation names must be unique within a document. The names are reported in
//! increasing order, each with its operations in document order.
use vstd::prelude::*;
use crate::document::{ExecutableDocument, OperationDefinition};
use crate::executable::document::error::{Error, ErrorView, errors_view};
use crate::executable::operation::orchestrator::operation_has_name;
use crate::names::{sort_names, sorted_names};
use crate::schema::strings_model;

verus! {

/// The names of the named operations, in order.
pub open spec fn operation_names(ops: Seq<OperationDefinition>) -> Seq<Seq<char>>
    decreases ops.len(),
{
    if ops.len() == 0 {
        Seq::empty()
    } else {
        operation_names(ops.drop_last()) + match ops.last().name {
            Some(n) => seq![n@],
            None => Seq::empty(),
        }
    }
}

/// The operations named `name`, in order.
pub open spec fn operations_named<'a>(ops: Seq<OperationDefinition>, name: Seq<char>) -> Seq<
    &'a OperationDefinition,
>
    decreases ops.len(),
{
    if ops.len() == 0 {
        Seq::empty()
    } else {
        operations_named(ops.drop_last(), name) + if operation_has_name(ops.last(), name) {
            seq![&ops.last()]
        } else {
            Seq::empty()
        }
    }
}

pub open spec fn name_errors<'a>(ops: Seq<OperationDefinition>, names: Seq<Seq<char>>) -> Seq<ErrorView<'a>>
    decreases names.len(),
{
    if names.len() == 0 {
        Seq::empty()
    } else {
        let named = operations_named(ops, names.last());
        name_errors(ops, names.drop_last()) + if named.len() > 1 {
            seq![ErrorView::NonUniqueOperationNames { name: names.last(), operations: named }]
        } else {
            Seq::empty()
        }
    }
}

/// The errors of the rule: one for each name shared by several operations.
pub open spec fn named_operation_name_uniqueness_errors<'a>(document: ExecutableDocument) -> Seq<
    ErrorView<'a>,
> {
    name_errors(
        document.operation_definitions@,
        sorted_names(operation_names(document.operation_definitions@)),
    )
}

pub fn named_operation_name_uniqueness<'a>(document: &'a ExecutableDocument) -> (r: Vec<Error<'a>>)
    ensures
        errors_view(r@) == named_operation_name_uniqueness_errors(*document),
{
    let ops = &document.operation_definitions;
    let mut names: Vec<String> = Vec::new();
    let mut i: usize = 0;
    while i < ops.len()
        invariant
            i <= ops.len(),
            *ops == document.operation_definitions,
            strings_model(names@) == operation_names(ops@.take(i as int)),
        decreases ops.len() - i,
    {
        proof {
            assert(ops@.take(i + 1).drop_last() =~= ops@.take(i as int));
            assert(ops@.take(i + 1).last() == ops@[i as int]);
        }
        let ghost before = names@;
        match &ops[i].name {
            Some(n) => {
                names.push(n.clone());
                proof { assert(strings_model(names@) =~= strings_model(before).push(n@)); }
            },
            None => {
                proof { assert(strings_model(names@) =~= operation_names(ops@.take(i + 1))); }
            },
        }
        i += 1;
    }
    proof { assert(ops@.take(i as int) =~= ops@); }
    let sorted = sort_names(&names);
    let ghost sm = strings_model(sorted@);
    let mut errors: Vec<Error<'a>> = Vec::new();
    let mut j: usize = 0;
    while j < sorted.len()
        invariant
            j <= sorted.len(),
            *ops == document.operation_definitions,
            sm == strings_model(sorted@),
            errors_view(errors@) == name_errors(ops@, sm.take(j as int)),
        decreases sorted.len() - j,
    {
        let name = &sorted[j];
        proof {
            assert(sm[j as int] == name@);
            assert(sm.take(j + 1).drop_last() =~= sm.take(j as int));
            assert(sm.take(j + 1).last() == name@);
        }
        let mut named: Vec<&'a OperationDefinition> = Vec::new();
        let mut first_name: Option<&'a String> = None;
        let mut k: usize = 0;
        while k < ops.len()
            invariant
                k <= ops.len(),
                *ops == document.operation_definitions,
                named@ == operations_named(ops@.take(k as int), name@),
                named@.len() > 0 <==> first_name is Some,
                first_name matches Some(n) ==> n@ == name@,
            decreases ops.len() - k,
        {
            proof {
                assert(ops@.take(k + 1).drop_last() =~= ops@.take(k as int));
                assert(ops@.take(k + 1).last() == ops@[k as int]);
            }
            let op: &'a OperationDefinition = &ops[k];
            match &op.name {
                Some(n) => {
                    if *n == *name {
                        named.push(op);
                        if first_name.is_none() {
                            first_name = Some(n);
                        }
                    }
                },
                None => {},
            }
            k += 1;
        }
        proof { assert(ops@.take(k as int) =~= ops@); }
        let ghost before = errors@;
        if named.len() > 1 {
            match first_name {
                Some(n) => {
                    errors.push(Error::NonUniqueOperationNames { name: n, operations: named });
                },
                None => {},
            }
        }
        proof { assert(errors_view(errors@) =~= name_errors(ops@, sm.take(j + 1))); }
        j += 1;
    }
    proof { assert(sm.take(j as int) =~= sm); }
    errors
}

} // verus!
