//! Every fragment definition must be spread somewhere in the document. Unused
//! fragments are reported by name in increasing order; of several definitions with one
//! name, the last is reported.
use vstd::prelude::*;
use crate::document::{ExecutableDocument, FragmentSpread};
use crate::executable::document::error::{Error, ErrorView, errors_view};
use crate::executable::document::rules::fragment_spreads_must_not_form_cycles::fragment_names;
use crate::executable::document::traversal::{collect_document_spreads, document_spreads};
use crate::names::{contains_name, sort_names, sorted_names};
use crate::schema::strings_model;

verus! {

pub open spec fn spread_names(spreads: Seq<&FragmentSpread>) -> Seq<Seq<char>> {
    spreads.map_values(|s: &FragmentSpread| s.name@)
}

pub open spec fn unused_errors<'a>(document: ExecutableDocument, names: Seq<Seq<char>>) -> Seq<ErrorView<'a>>
    decreases names.len(),
{
    if names.len() == 0 {
        Seq::empty()
    } else {
        let name = names.last();
        unused_errors(document, names.drop_last()) + if spread_names(document_spreads(document)).contains(
            name,
        ) {
            Seq::empty()
        } else {
            match document.fragment_index(name) {
                Some(k) => if 0 <= k < document.fragment_definitions@.len() {
                    seq![
                        ErrorView::FragmentDefinitionUnused {
                            fragment_definition: &document.fragment_definitions@[k],
                        },
                    ]
                } else {
                    Seq::empty()
                },
                None => Seq::empty(),
            }
        }
    }
}

/// The errors of the rule: the fragments whose name no spread of the document (see
/// `document_spreads`) uses.
pub open spec fn fragments_must_be_used_errors<'a>(document: ExecutableDocument) -> Seq<ErrorView<'a>> {
    unused_errors(document, sorted_names(fragment_names(document.fragment_definitions@)))
}

pub fn fragments_must_be_used<'a>(document: &'a ExecutableDocument) -> (r: Vec<Error<'a>>)
    ensures
        errors_view(r@) == fragments_must_be_used_errors(*document),
{
    let spreads = collect_document_spreads(document);
    let mut used: Vec<String> = Vec::new();
    let mut i: usize = 0;
    while i < spreads.len()
        invariant
            i <= spreads.len(),
            strings_model(used@) == spread_names(spreads@).take(i as int),
        decreases spreads.len() - i,
    {
        let ghost before = used@;
        used.push(spreads[i].name.clone());
        proof {
            assert(strings_model(used@) =~= strings_model(before).push(spreads@[i as int].name@));
            assert(spread_names(spreads@).take(i + 1) =~= spread_names(spreads@).take(i as int).push(
                spreads@[i as int].name@,
            ));
        }
        i += 1;
    }
    proof { assert(spread_names(spreads@).take(i as int) =~= spread_names(spreads@)); }
    let mut names: Vec<String> = Vec::new();
    let mut j: usize = 0;
    while j < document.fragment_definitions.len()
        invariant
            j <= document.fragment_definitions.len(),
            strings_model(names@) == fragment_names(document.fragment_definitions@).take(j as int),
        decreases document.fragment_definitions.len() - j,
    {
        let ghost before = names@;
        names.push(document.fragment_definitions[j].name.clone());
        proof {
            assert(strings_model(names@) =~= strings_model(before).push(
                document.fragment_definitions@[j as int].name@,
            ));
            assert(fragment_names(document.fragment_definitions@).take(j + 1) =~= fragment_names(
                document.fragment_definitions@,
            ).take(j as int).push(document.fragment_definitions@[j as int].name@));
        }
        j += 1;
    }
    proof {
        assert(fragment_names(document.fragment_definitions@).take(j as int) =~= fragment_names(
            document.fragment_definitions@,
        ));
    }
    let sorted = sort_names(&names);
    let ghost sm = strings_model(sorted@);
    let mut errors: Vec<Error<'a>> = Vec::new();
    let mut k: usize = 0;
    while k < sorted.len()
        invariant
            k <= sorted.len(),
            sm == strings_model(sorted@),
            strings_model(used@) == spread_names(document_spreads(*document)),
            errors_view(errors@) == unused_errors(*document, sm.take(k as int)),
        decreases sorted.len() - k,
    {
        let name = &sorted[k];
        proof {
            assert(sm[k as int] == name@);
            assert(sm.take(k + 1).drop_last() =~= sm.take(k as int));
            assert(sm.take(k + 1).last() == name@);
        }
        let ghost before = errors@;
        if !contains_name(&used, name) {
            match document.fragment_definition(name) {
                Some(f) => {
                    errors.push(
                        Error::FragmentDefinitionUnused {
                            fragment_definition: &document.fragment_definitions[f],
                        },
                    );
                },
                None => {},
            }
        }
        proof { assert(errors_view(errors@) =~= unused_errors(*document, sm.take(k + 1))); }
        k += 1;
    }
    proof { assert(sm.take(k as int) =~= sm); }
    errors
}

} // verus!
