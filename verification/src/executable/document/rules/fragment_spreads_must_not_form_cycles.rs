//! Fragments must not spread themselves, directly or through other fragments. Each
//! fragment name, in increasing order, is searched depth first from the fragment it
//! names; the first spread found that leads back to it is reported.
use vstd::prelude::*;
use crate::document::{ExecutableDocument, FragmentDefinition, FragmentSpread};
use crate::executable::document::error::{Error, ErrorView, errors_view};
use crate::executable::document::traversal::{collect_spreads, spreads_in};
use crate::names::{contains_name, sort_names, sorted_names};
use crate::schema::strings_model;

verus! {

/// The number of fragment definitions whose name is not among `visited`.
pub open spec fn unvisited(defs: Seq<FragmentDefinition>, visited: Seq<Seq<char>>) -> nat
    decreases defs.len(),
{
    if defs.len() == 0 {
        0
    } else {
        unvisited(defs.drop_last(), visited) + if visited.contains(defs.last().name@) {
            0nat
        } else {
            1nat
        }
    }
}

pub proof fn lemma_unvisited_push(defs: Seq<FragmentDefinition>, visited: Seq<Seq<char>>, name: Seq<char>, k: int)
    requires
        !visited.contains(name),
        0 <= k < defs.len(),
        defs[k].name@ == name,
    ensures
        unvisited(defs, visited.push(name)) < unvisited(defs, visited),
    decreases defs.len(),
{
    lemma_unvisited_push_le(defs.drop_last(), visited, name);
    if k < defs.len() - 1 {
        lemma_unvisited_push(defs.drop_last(), visited, name, k);
    }
    if visited.contains(defs.last().name@) {
        let j = choose|j: int| 0 <= j < visited.len() && visited[j] == defs.last().name@;
        assert(visited.push(name)[j] == defs.last().name@);
    }
    assert(visited.push(name)[visited.len() as int] == name);
}

pub proof fn lemma_unvisited_push_le(defs: Seq<FragmentDefinition>, visited: Seq<Seq<char>>, name: Seq<char>)
    ensures
        unvisited(defs, visited.push(name)) <= unvisited(defs, visited),
    decreases defs.len(),
{
    if defs.len() > 0 {
        lemma_unvisited_push_le(defs.drop_last(), visited, name);
        if visited.contains(defs.last().name@) {
            let j = choose|j: int| 0 <= j < visited.len() && visited[j] == defs.last().name@;
            assert(visited.push(name)[j] == defs.last().name@);
        }
    }
}

/// The first spread that leads back to the fragment named `target`, searching depth
/// first from the fragment named `current`. A fragment already on the path
/// (`visited`) is not entered again; a name without a definition leads nowhere.
pub open spec fn find_cycle<'a>(
    document: ExecutableDocument,
    target: Seq<char>,
    current: Seq<char>,
    visited: Seq<Seq<char>>,
) -> Option<&'a FragmentSpread>
    decreases unvisited(document.fragment_definitions@, visited), 0int, 0int,
{
    if visited.contains(current) {
        None
    } else {
        match document.fragment_index(current) {
            Some(k) => if 0 <= k < document.fragment_definitions@.len() {
                proof {
                    crate::common::lemma_last_index(
                        document.fragment_definitions@,
                        |f: FragmentDefinition| f.name@ == current,
                    );
                    lemma_unvisited_push(document.fragment_definitions@, visited, current, k);
                }
                find_in_spreads(
                    document,
                    target,
                    spreads_in(document.fragment_definitions@[k].selection_set@),
                    visited.push(current),
                )
            } else {
                None
            },
            None => None,
        }
    }
}

/// The first of `spreads` that names `target`, or else the first cycle found through
/// one of them, in order.
pub open spec fn find_in_spreads<'a>(
    document: ExecutableDocument,
    target: Seq<char>,
    spreads: Seq<&'a FragmentSpread>,
    visited: Seq<Seq<char>>,
) -> Option<&'a FragmentSpread>
    decreases unvisited(document.fragment_definitions@, visited), 1int, spreads.len(),
{
    if spreads.len() == 0 {
        None
    } else {
        let s = spreads[0];
        if s.name@ == target {
            Some(s)
        } else {
            match find_cycle(document, target, s.name@, visited) {
                Some(x) => Some(x),
                None => find_in_spreads(document, target, spreads.drop_first(), visited),
            }
        }
    }
}

pub open spec fn fragment_names(defs: Seq<FragmentDefinition>) -> Seq<Seq<char>> {
    defs.map_values(|d: FragmentDefinition| d.name@)
}

/// The cycle of each fragment among `names`, in order.
pub open spec fn cycle_errors<'a>(document: ExecutableDocument, names: Seq<Seq<char>>) -> Seq<
    ErrorView<'a>,
>
    decreases names.len(),
{
    if names.len() == 0 {
        Seq::empty()
    } else {
        let name = names.last();
        cycle_errors(document, names.drop_last()) + match document.fragment_index(name) {
            Some(k) => if 0 <= k < document.fragment_definitions@.len() {
                match find_cycle(document, name, name, Seq::empty()) {
                    Some(s) => seq![
                        ErrorView::FragmentSpreadCycle {
                            fragment_definition: &document.fragment_definitions@[k],
                            fragment_spread: s,
                        },
                    ],
                    None => Seq::empty(),
                }
            } else {
                Seq::empty()
            },
            None => Seq::empty(),
        }
    }
}

/// The errors of the rule: one for each fragment name, in increasing order, whose
/// fragment reaches itself.
pub open spec fn fragment_spread_cycles<'a>(document: ExecutableDocument) -> Seq<ErrorView<'a>> {
    cycle_errors(document, sorted_names(fragment_names(document.fragment_definitions@)))
}

fn find_fragment_cycle<'a>(
    document: &'a ExecutableDocument,
    target: &String,
    current: &String,
    visited: &mut Vec<String>,
) -> (r: Option<&'a FragmentSpread>)
    ensures
        r == find_cycle(*document, target@, current@, strings_model(old(visited)@)),
        final(visited)@ == old(visited)@,
    decreases unvisited(document.fragment_definitions@, strings_model(old(visited)@)), 0int,
{
    if contains_name(visited, current) {
        return None;
    }
    let k = match document.fragment_definition(current) {
        Some(k) => k,
        None => return None,
    };
    let mut spreads: Vec<&'a FragmentSpread> = Vec::new();
    collect_spreads(&document.fragment_definitions[k].selection_set, &mut spreads);
    proof {
        assert(spreads@ =~= spreads_in(document.fragment_definitions@[k as int].selection_set@));
        crate::common::lemma_last_index(
            document.fragment_definitions@,
            |f: FragmentDefinition| f.name@ == current@,
        );
        lemma_unvisited_push(
            document.fragment_definitions@,
            strings_model(visited@),
            current@,
            k as int,
        );
    }
    let ghost before = visited@;
    visited.push(current.clone());
    proof { assert(strings_model(visited@) =~= strings_model(before).push(current@)); }
    let r = search_spreads(document, target, &spreads, visited);
    visited.pop();
    proof { assert(visited@ =~= before); }
    r
}

fn search_spreads<'a>(
    document: &'a ExecutableDocument,
    target: &String,
    spreads: &Vec<&'a FragmentSpread>,
    visited: &mut Vec<String>,
) -> (r: Option<&'a FragmentSpread>)
    ensures
        r == find_in_spreads(*document, target@, spreads@, strings_model(old(visited)@)),
        final(visited)@ == old(visited)@,
    decreases unvisited(document.fragment_definitions@, strings_model(old(visited)@)), 1int,
{
    let ghost v = strings_model(visited@);
    let ghost start = visited@;
    let mut i: usize = 0;
    proof { assert(spreads@.skip(0) =~= spreads@); }
    while i < spreads.len()
        invariant
            i <= spreads.len(),
            visited@ == start,
            start == old(visited)@,
            v == strings_model(visited@),
            find_in_spreads(*document, target@, spreads@, v) == find_in_spreads(
                *document,
                target@,
                spreads@.skip(i as int),
                v,
            ),
        decreases spreads.len() - i,
    {
        let s: &'a FragmentSpread = spreads[i];
        proof {
            assert(spreads@.skip(i as int)[0] == s);
            assert(spreads@.skip(i as int).drop_first() =~= spreads@.skip(i + 1));
        }
        if s.name == *target {
            return Some(s);
        }
        match find_fragment_cycle(document, target, &s.name, visited) {
            Some(x) => {
                return Some(x);
            },
            None => {},
        }
        i += 1;
    }
    None
}

/// Reports each fragment, by name in increasing order, that spreads itself directly or
/// through other fragments.
pub fn fragment_spreads_must_not_form_cycles<'a>(document: &'a ExecutableDocument) -> (r: Vec<
    Error<'a>,
>)
    ensures
        errors_view(r@) == fragment_spread_cycles(*document),
{
    let mut names: Vec<String> = Vec::new();
    let mut i: usize = 0;
    while i < document.fragment_definitions.len()
        invariant
            i <= document.fragment_definitions.len(),
            strings_model(names@) == fragment_names(document.fragment_definitions@).take(i as int),
        decreases document.fragment_definitions.len() - i,
    {
        let ghost before = names@;
        names.push(document.fragment_definitions[i].name.clone());
        proof {
            assert(strings_model(names@) =~= strings_model(before).push(
                document.fragment_definitions@[i as int].name@,
            ));
            assert(fragment_names(document.fragment_definitions@).take(i + 1) =~= fragment_names(
                document.fragment_definitions@,
            ).take(i as int).push(document.fragment_definitions@[i as int].name@));
        }
        i += 1;
    }
    proof {
        assert(fragment_names(document.fragment_definitions@).take(i as int) =~= fragment_names(
            document.fragment_definitions@,
        ));
    }
    let sorted = sort_names(&names);
    let ghost sm = strings_model(sorted@);
    let mut errors: Vec<Error<'a>> = Vec::new();
    let mut j: usize = 0;
    while j < sorted.len()
        invariant
            j <= sorted.len(),
            sm == strings_model(sorted@),
            errors_view(errors@) == cycle_errors(*document, sm.take(j as int)),
        decreases sorted.len() - j,
    {
        let name = &sorted[j];
        proof {
            assert(sm[j as int] == name@);
            assert(sm.take(j + 1).drop_last() =~= sm.take(j as int));
            assert(sm.take(j + 1).last() == name@);
        }
        let ghost before = errors@;
        match document.fragment_definition(name) {
            Some(k) => {
                let mut visited: Vec<String> = Vec::new();
                proof { assert(strings_model(visited@) =~= Seq::<Seq<char>>::empty()); }
                match find_fragment_cycle(document, name, name, &mut visited) {
                    Some(s) => {
                        errors.push(
                            Error::FragmentSpreadCycle {
                                fragment_definition: &document.fragment_definitions[k],
                                fragment_spread: s,
                            },
                        );
                    },
                    None => {},
                }
            },
            None => {},
        }
        proof { assert(errors_view(errors@) =~= cycle_errors(*document, sm.take(j + 1))); }
        j += 1;
    }
    proof { assert(sm.take(j as int) =~= sm); }
    errors
}

} // verus!
