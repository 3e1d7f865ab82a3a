//! What a selection set contains, taken in document order: each selection in turn, and
//! the selections within a field or an inline fragment before the next one.
use vstd::prelude::*;
use crate::document::{
    ExecutableDocument, FragmentDefinition, FragmentSpread, OperationDefinition, Selection,
};
use crate::schema::strings_model;
use crate::value::{Argument, Directive, Value};

verus! {

/// The fragment spreads within a selection set, in document order.
pub open spec fn spreads_in<'a>(sels: Seq<Selection>) -> Seq<&'a FragmentSpread>
    decreases sels,
{
    if sels.len() == 0 {
        Seq::empty()
    } else {
        spreads_in(sels.drop_last()) + spreads_in_selection(sels.last())
    }
}

pub open spec fn spreads_in_selection<'a>(sel: Selection) -> Seq<&'a FragmentSpread>
    decreases sel,
{
    match sel {
        Selection::Field(f) => spreads_in(f.selection_set@),
        Selection::FragmentSpread(s) => seq![&s],
        Selection::InlineFragment(i) => spreads_in(i.selection_set@),
    }
}

/// Appends the fragment spreads within `sels` to `out`.
pub fn collect_spreads<'a>(sels: &'a Vec<Selection>, out: &mut Vec<&'a FragmentSpread>)
    ensures
        final(out)@ == old(out)@ + spreads_in(sels@),
    decreases sels@,
{
    let ghost start = out@;
    let mut i: usize = 0;
    while i < sels.len()
        invariant
            i <= sels.len(),
            out@ == start + spreads_in(sels@.take(i as int)),
        decreases sels.len() - i,
    {
        proof {
            assert(sels@.take(i + 1).drop_last() =~= sels@.take(i as int));
            assert(sels@.take(i + 1).last() == sels@[i as int]);
            assert(decreases_to!(sels@ => sels@[i as int]));
        }
        collect_spreads_in_selection(&sels[i], out);
        i += 1;
        proof { assert(out@ =~= start + spreads_in(sels@.take(i as int))); }
    }
    proof { assert(sels@.take(i as int) =~= sels@); }
}

fn collect_spreads_in_selection<'a>(sel: &'a Selection, out: &mut Vec<&'a FragmentSpread>)
    ensures
        final(out)@ == old(out)@ + spreads_in_selection(*sel),
    decreases *sel,
{
    match sel {
        Selection::Field(f) => {
            proof {
                assert(decreases_to!(*sel => (*sel)->Field_0));
                assert(decreases_to!(f.selection_set => f.selection_set@));
            }
            collect_spreads(&f.selection_set, out);
        },
        Selection::FragmentSpread(s) => {
            out.push(s);
        },
        Selection::InlineFragment(i) => {
            proof {
                assert(decreases_to!(*sel => (*sel)->InlineFragment_0));
                assert(decreases_to!(i.selection_set => i.selection_set@));
            }
            collect_spreads(&i.selection_set, out);
        },
    }
}

pub open spec fn operations_spreads<'a>(ops: Seq<OperationDefinition>) -> Seq<&'a FragmentSpread>
    decreases ops.len(),
{
    if ops.len() == 0 {
        Seq::empty()
    } else {
        operations_spreads(ops.drop_last()) + spreads_in(ops.last().selection_set@)
    }
}

pub open spec fn fragments_spreads<'a>(frags: Seq<FragmentDefinition>) -> Seq<&'a FragmentSpread>
    decreases frags.len(),
{
    if frags.len() == 0 {
        Seq::empty()
    } else {
        fragments_spreads(frags.drop_last()) + spreads_in(frags.last().selection_set@)
    }
}

/// The fragment spreads of the whole document: those of the operations, then those of
/// the fragment definitions, each in document order.
pub open spec fn document_spreads<'a>(document: ExecutableDocument) -> Seq<&'a FragmentSpread> {
    operations_spreads(document.operation_definitions@) + fragments_spreads(
        document.fragment_definitions@,
    )
}

pub fn collect_document_spreads<'a>(document: &'a ExecutableDocument) -> (r: Vec<&'a FragmentSpread>)
    ensures
        r@ == document_spreads(*document),
{
    let mut out: Vec<&'a FragmentSpread> = Vec::new();
    let ops = &document.operation_definitions;
    let mut i: usize = 0;
    while i < ops.len()
        invariant
            i <= ops.len(),
            *ops == document.operation_definitions,
            out@ == operations_spreads(ops@.take(i as int)),
        decreases ops.len() - i,
    {
        proof {
            assert(ops@.take(i + 1).drop_last() =~= ops@.take(i as int));
            assert(ops@.take(i + 1).last() == ops@[i as int]);
        }
        collect_spreads(&ops[i].selection_set, &mut out);
        i += 1;
    }
    proof { assert(ops@.take(i as int) =~= ops@); }
    let ghost middle = out@;
    let frags = &document.fragment_definitions;
    let mut j: usize = 0;
    proof { assert(middle + fragments_spreads(frags@.take(0)) =~= middle); }
    while j < frags.len()
        invariant
            j <= frags.len(),
            *frags == document.fragment_definitions,
            out@ == middle + fragments_spreads(frags@.take(j as int)),
        decreases frags.len() - j,
    {
        proof {
            assert(frags@.take(j + 1).drop_last() =~= frags@.take(j as int));
            assert(frags@.take(j + 1).last() == frags@[j as int]);
        }
        collect_spreads(&frags[j].selection_set, &mut out);
        j += 1;
        proof { assert(out@ =~= middle + fragments_spreads(frags@.take(j as int))); }
    }
    proof { assert(frags@.take(j as int) =~= frags@); }
    out
}

/// The variables a value refers to, in order (with repetitions).
pub open spec fn value_variables(v: Value) -> Seq<Seq<char>>
    decreases v,
{
    match v {
        Value::Variable(n) => seq![n@],
        Value::List(items) => list_variables(items@),
        Value::Object(entries) => object_variables(entries@),
        _ => Seq::empty(),
    }
}

pub open spec fn list_variables(items: Seq<Value>) -> Seq<Seq<char>>
    decreases items,
{
    if items.len() == 0 {
        Seq::empty()
    } else {
        list_variables(items.drop_last()) + value_variables(items.last())
    }
}

pub open spec fn object_variables(entries: Seq<(String, Value)>) -> Seq<Seq<char>>
    decreases entries,
{
    if entries.len() == 0 {
        Seq::empty()
    } else {
        object_variables(entries.drop_last()) + value_variables(entries.last().1)
    }
}

pub open spec fn arguments_variables(args: Seq<Argument>) -> Seq<Seq<char>>
    decreases args.len(),
{
    if args.len() == 0 {
        Seq::empty()
    } else {
        arguments_variables(args.drop_last()) + value_variables(args.last().value)
    }
}

pub open spec fn directives_variables(ds: Seq<Directive>) -> Seq<Seq<char>>
    decreases ds.len(),
{
    if ds.len() == 0 {
        Seq::empty()
    } else {
        directives_variables(ds.drop_last()) + arguments_variables(ds.last().arguments@)
    }
}

/// The variables used within a selection set: in the arguments of its fields and in
/// the arguments of the directives of its fields, inline fragments and spreads.
pub open spec fn selections_variables(sels: Seq<Selection>) -> Seq<Seq<char>>
    decreases sels,
{
    if sels.len() == 0 {
        Seq::empty()
    } else {
        selections_variables(sels.drop_last()) + selection_variables(sels.last())
    }
}

pub open spec fn selection_variables(sel: Selection) -> Seq<Seq<char>>
    decreases sel,
{
    match sel {
        Selection::Field(f) => arguments_variables(f.arguments@) + directives_variables(f.directives@)
            + selections_variables(f.selection_set@),
        Selection::InlineFragment(i) => directives_variables(i.directives@) + selections_variables(
            i.selection_set@,
        ),
        Selection::FragmentSpread(s) => directives_variables(s.directives@),
    }
}

pub fn collect_value_variables(v: &Value, out: &mut Vec<String>)
    ensures
        strings_model(final(out)@) == strings_model(old(out)@) + value_variables(*v),
    decreases *v,
{
    let ghost start = strings_model(out@);
    match v {
        Value::Variable(n) => {
            out.push(n.clone());
            proof { assert(strings_model(out@) =~= start + seq![n@]); }
        },
        Value::List(items) => {
            let mut i: usize = 0;
            while i < items.len()
                invariant
                    i <= items.len(),
                    *v == Value::List(*items),
                    strings_model(out@) == start + list_variables(items@.take(i as int)),
                decreases items.len() - i,
            {
                proof {
                    assert(items@.take(i + 1).drop_last() =~= items@.take(i as int));
                    assert(items@.take(i + 1).last() == items@[i as int]);
                    assert(decreases_to!(*v => (*v)->List_0));
                    assert(decreases_to!(*items => items@));
                    assert(decreases_to!(items@ => items@[i as int]));
                }
                collect_value_variables(&items[i], out);
                i += 1;
                proof { assert(strings_model(out@) =~= start + list_variables(items@.take(i as int))); }
            }
            proof { assert(items@.take(i as int) =~= items@); }
        },
        Value::Object(entries) => {
            let mut i: usize = 0;
            while i < entries.len()
                invariant
                    i <= entries.len(),
                    *v == Value::Object(*entries),
                    strings_model(out@) == start + object_variables(entries@.take(i as int)),
                decreases entries.len() - i,
            {
                proof {
                    assert(entries@.take(i + 1).drop_last() =~= entries@.take(i as int));
                    assert(entries@.take(i + 1).last() == entries@[i as int]);
                    assert(decreases_to!(*v => (*v)->Object_0));
                    assert(decreases_to!(*entries => entries@));
                    assert(decreases_to!(entries@ => entries@[i as int]));
                    assert(decreases_to!(entries@[i as int] => entries@[i as int].1));
                }
                collect_value_variables(&entries[i].1, out);
                i += 1;
                proof { assert(strings_model(out@) =~= start + object_variables(entries@.take(i as int))); }
            }
            proof { assert(entries@.take(i as int) =~= entries@); }
        },
        _ => {
            proof { assert(strings_model(out@) =~= start + value_variables(*v)); }
        },
    }
}

pub fn collect_arguments_variables(args: &Vec<Argument>, out: &mut Vec<String>)
    ensures
        strings_model(final(out)@) == strings_model(old(out)@) + arguments_variables(args@),
{
    let ghost start = strings_model(out@);
    let mut i: usize = 0;
    proof { assert(start + arguments_variables(args@.take(0)) =~= start); }
    while i < args.len()
        invariant
            i <= args.len(),
            strings_model(out@) == start + arguments_variables(args@.take(i as int)),
        decreases args.len() - i,
    {
        proof {
            assert(args@.take(i + 1).drop_last() =~= args@.take(i as int));
            assert(args@.take(i + 1).last() == args@[i as int]);
        }
        collect_value_variables(&args[i].value, out);
        i += 1;
        proof { assert(strings_model(out@) =~= start + arguments_variables(args@.take(i as int))); }
    }
    proof { assert(args@.take(i as int) =~= args@); }
}

pub fn collect_directives_variables(ds: &Vec<Directive>, out: &mut Vec<String>)
    ensures
        strings_model(final(out)@) == strings_model(old(out)@) + directives_variables(ds@),
{
    let ghost start = strings_model(out@);
    let mut i: usize = 0;
    proof { assert(start + directives_variables(ds@.take(0)) =~= start); }
    while i < ds.len()
        invariant
            i <= ds.len(),
            strings_model(out@) == start + directives_variables(ds@.take(i as int)),
        decreases ds.len() - i,
    {
        proof {
            assert(ds@.take(i + 1).drop_last() =~= ds@.take(i as int));
            assert(ds@.take(i + 1).last() == ds@[i as int]);
        }
        collect_arguments_variables(&ds[i].arguments, out);
        i += 1;
        proof { assert(strings_model(out@) =~= start + directives_variables(ds@.take(i as int))); }
    }
    proof { assert(ds@.take(i as int) =~= ds@); }
}

pub fn collect_selections_variables(sels: &Vec<Selection>, out: &mut Vec<String>)
    ensures
        strings_model(final(out)@) == strings_model(old(out)@) + selections_variables(sels@),
    decreases sels@,
{
    let ghost start = strings_model(out@);
    let mut i: usize = 0;
    proof { assert(start + selections_variables(sels@.take(0)) =~= start); }
    while i < sels.len()
        invariant
            i <= sels.len(),
            strings_model(out@) == start + selections_variables(sels@.take(i as int)),
        decreases sels.len() - i,
    {
        proof {
            assert(sels@.take(i + 1).drop_last() =~= sels@.take(i as int));
            assert(sels@.take(i + 1).last() == sels@[i as int]);
            assert(decreases_to!(sels@ => sels@[i as int]));
        }
        collect_selection_variables(&sels[i], out);
        i += 1;
        proof { assert(strings_model(out@) =~= start + selections_variables(sels@.take(i as int))); }
    }
    proof { assert(sels@.take(i as int) =~= sels@); }
}

fn collect_selection_variables(sel: &Selection, out: &mut Vec<String>)
    ensures
        strings_model(final(out)@) == strings_model(old(out)@) + selection_variables(*sel),
    decreases *sel,
{
    let ghost start = strings_model(out@);
    match sel {
        Selection::Field(f) => {
            collect_arguments_variables(&f.arguments, out);
            collect_directives_variables(&f.directives, out);
            proof {
                assert(decreases_to!(*sel => (*sel)->Field_0));
                assert(decreases_to!(f.selection_set => f.selection_set@));
            }
            collect_selections_variables(&f.selection_set, out);
            proof {
                assert(strings_model(out@) =~= start + selection_variables(*sel));
            }
        },
        Selection::InlineFragment(i) => {
            collect_directives_variables(&i.directives, out);
            proof {
                assert(decreases_to!(*sel => (*sel)->InlineFragment_0));
                assert(decreases_to!(i.selection_set => i.selection_set@));
            }
            collect_selections_variables(&i.selection_set, out);
            proof {
                assert(strings_model(out@) =~= start + selection_variables(*sel));
            }
        },
        Selection::FragmentSpread(s) => {
            collect_directives_variables(&s.directives, out);
        },
    }
}

} // verus!
