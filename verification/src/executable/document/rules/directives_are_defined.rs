//! Every directive used in a document must be defined by the schema. Directives are
//! taken in the order of `document_directive_uses`.
use vstd::prelude::*;
use crate::document::ExecutableDocument;
use crate::executable::document::directive_uses::{
    DirectiveUse, collect_directive_uses, document_directive_uses,
};
use crate::executable::document::error::{Error, ErrorView, errors_view};
use crate::schema::SchemaDefinition;

verus! {

pub open spec fn undefined_directives<'a>(schema: SchemaDefinition, uses: Seq<DirectiveUse<'a>>) -> Seq<
    ErrorView<'a>,
>
    decreases uses.len(),
{
    if uses.len() == 0 {
        Seq::empty()
    } else {
        undefined_directives(schema, uses.drop_last()) + if schema.directive_index(
            uses.last().directive.name@,
        ) is None {
            seq![ErrorView::DirectiveDoesNotExist { directive: uses.last().directive }]
        } else {
            Seq::empty()
        }
    }
}

/// The errors of the rule.
pub open spec fn directives_are_defined_errors<'a>(
    schema: &'a SchemaDefinition,
    document: &'a ExecutableDocument,
) -> Seq<ErrorView<'a>> {
    undefined_directives(*schema, document_directive_uses(*document))
}

/// Reports each directive that the schema does not define.
pub fn directives_are_defined<'a>(document: &'a ExecutableDocument, schema: &'a SchemaDefinition) -> (r: Vec<
    Error<'a>,
>)
    ensures
        errors_view(r@) == directives_are_defined_errors(schema, document),
{
    let uses = collect_directive_uses(document);
    let mut errors: Vec<Error<'a>> = Vec::new();
    let mut i: usize = 0;
    proof { assert(errors_view(errors@) =~= undefined_directives(*schema, uses@.take(0))); }
    while i < uses.len()
        invariant
            i <= uses.len(),
            errors_view(errors@) == undefined_directives(*schema, uses@.take(i as int)),
        decreases uses.len() - i,
    {
        proof {
            assert(uses@.take(i + 1).drop_last() =~= uses@.take(i as int));
            assert(uses@.take(i + 1).last() == uses@[i as int]);
        }
        let ghost before = errors_view(errors@);
        if schema.get_directive_definition(&uses[i].directive.name).is_none() {
            errors.push(Error::DirectiveDoesNotExist { directive: uses[i].directive });
            proof { assert(errors_view(errors@) =~= before.push(errors@.last()@)); }
        }
        i += 1;
        proof { assert(errors_view(errors@) =~= undefined_directives(*schema, uses@.take(i as int))); }
    }
    proof { assert(uses@.take(i as int) =~= uses@); }
    errors
}

} // verus!
