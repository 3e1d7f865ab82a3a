//! Finds the list values among the arguments of an operation that are longer than a
//! maximum: in argument values, in input object fields and list items nested in them,
//! and in the variable values that arguments refer to.
use vstd::prelude::*;
use crate::common::{decimal, usize_to_string};
use crate::document::ExecutableDocument;
use crate::executable::operation::orchestrator::{
    Event, OperationResolutionError, Orchestrator, spec_name_of, spec_resolution_error,
    spec_resolved_events,
};
use crate::executable::operation::analyzer::Analyzer;
use crate::executable::operation::variable_values::VariableValues;
use crate::schema::SchemaDefinition;
use crate::value::{Argument, Value};

verus! {

/// An argument or input field whose list value exceeds the maximum length; `name` is
/// the path to it, such as `x.0.property`.
pub struct Offender {
    pub size: usize,
    pub name: String,
}

impl View for Offender {
    type V = (usize, Seq<char>);

    open spec fn view(&self) -> (usize, Seq<char>) {
        (self.size, self.name@)
    }
}

pub open spec fn follow_rank(follow_variables: bool) -> nat {
    if follow_variables { 1 } else { 0 }
}

/// The offenders within `value`, found under the path `name`. Variables are looked up
/// in the variable values only when `follow_variables` holds, that is in document
/// values and not in the variable values themselves.
pub open spec fn value_offenders(
    max_length: usize,
    variable_values: VariableValues,
    name: Seq<char>,
    value: Value,
    follow_variables: bool,
) -> Seq<(usize, Seq<char>)>
    decreases follow_rank(follow_variables), value,
{
    match value {
        Value::List(items) => if items@.len() > max_length {
            seq![(items@.len() as usize, name)]
        } else {
            list_offenders(max_length, variable_values, name, items@, follow_variables)
        },
        Value::Object(entries) => object_offenders(
            max_length,
            variable_values,
            name,
            entries@,
            follow_variables,
        ),
        Value::Variable(v) => if follow_variables {
            match variable_values.spec_get(v@) {
                Some(val) => value_offenders(max_length, variable_values, name, val, false),
                None => Seq::empty(),
            }
        } else {
            Seq::empty()
        },
        _ => Seq::empty(),
    }
}

/// The offenders within the items of a list, item `i` under the path `name.i`.
pub open spec fn list_offenders(
    max_length: usize,
    variable_values: VariableValues,
    name: Seq<char>,
    items: Seq<Value>,
    follow_variables: bool,
) -> Seq<(usize, Seq<char>)>
    decreases follow_rank(follow_variables), items,
{
    if items.len() == 0 {
        Seq::empty()
    } else {
        list_offenders(max_length, variable_values, name, items.drop_last(), follow_variables)
            + value_offenders(
            max_length,
            variable_values,
            name + seq!['.'] + decimal((items.len() - 1) as nat),
            items.last(),
            follow_variables,
        )
    }
}

/// The offenders within the fields of an object, field `k` under the path `name.k`.
pub open spec fn object_offenders(
    max_length: usize,
    variable_values: VariableValues,
    name: Seq<char>,
    entries: Seq<(String, Value)>,
    follow_variables: bool,
) -> Seq<(usize, Seq<char>)>
    decreases follow_rank(follow_variables), entries,
{
    if entries.len() == 0 {
        Seq::empty()
    } else {
        object_offenders(max_length, variable_values, name, entries.drop_last(), follow_variables)
            + value_offenders(
            max_length,
            variable_values,
            name + seq!['.'] + entries.last().0@,
            entries.last().1,
            follow_variables,
        )
    }
}

/// The offenders of all argument events of a walk, in order.
pub open spec fn events_offenders(
    max_length: usize,
    variable_values: VariableValues,
    events: Seq<Event>,
) -> Seq<(usize, Seq<char>)>
    decreases events.len(),
{
    if events.len() == 0 {
        Seq::empty()
    } else {
        events_offenders(max_length, variable_values, events.drop_last()) + match events.last() {
            Event::VisitArgument { argument, .. } => value_offenders(
                max_length,
                variable_values,
                argument.name@,
                argument.value,
                true,
            ),
            _ => Seq::empty(),
        }
    }
}

pub open spec fn offenders_view(offenders: Seq<Offender>) -> Seq<(usize, Seq<char>)> {
    offenders.map_values(|o: Offender| o@)
}

fn path_with(name: &String, segment: &str) -> (r: String)
    ensures
        r@ == name@ + seq!['.'] + segment@,
{
    let mut r = name.clone();
    r.append(".");
    proof { reveal_strlit("."); }
    r.append(segment);
    r
}

/// Walks a value, pushing the offenders within it onto `offenders`.
fn find_input_size_offenders(
    max_length: usize,
    offenders: &mut Vec<Offender>,
    variable_values: &VariableValues,
    name: String,
    value: &Value,
    follow_variables: bool,
)
    ensures
        offenders_view(final(offenders)@) == offenders_view(old(offenders)@) + value_offenders(
            max_length,
            *variable_values,
            name@,
            *value,
            follow_variables,
        ),
    decreases follow_rank(follow_variables), *value,
{
    match value {
        Value::List(items) => {
            if items.len() > max_length {
                let ghost before = offenders@;
                offenders.push(Offender { size: items.len(), name });
                proof { assert(offenders_view(offenders@) =~= offenders_view(before).push((items@.len() as usize, name@))); }
                return;
            }
            let ghost before = offenders@;
            let mut i: usize = 0;
            while i < items.len()
                invariant
                    i <= items.len(),
                    *value == Value::List(*items),
                    offenders_view(offenders@) == offenders_view(before) + list_offenders(
                        max_length,
                        *variable_values,
                        name@,
                        items@.take(i as int),
                        follow_variables,
                    ),
                decreases items.len() - i,
            {
                proof {
                    assert(items@.take(i + 1).drop_last() =~= items@.take(i as int));
                    assert(items@.take(i + 1).last() == items@[i as int]);
                    assert(decreases_to!(*value => (*value)->List_0));
                    assert(decreases_to!(*items => items@));
                    assert(decreases_to!(items@ => items@[i as int]));
                }
                let index = usize_to_string(i);
                let item_name = path_with(&name, index.as_str());
                find_input_size_offenders(
                    max_length,
                    offenders,
                    variable_values,
                    item_name,
                    &items[i],
                    follow_variables,
                );
                i += 1;
                proof {
                    assert(offenders_view(offenders@) =~= offenders_view(before) + list_offenders(
                        max_length,
                        *variable_values,
                        name@,
                        items@.take(i as int),
                        follow_variables,
                    ));
                }
            }
            proof { assert(items@.take(i as int) =~= items@); }
        },
        Value::Object(entries) => {
            let ghost before = offenders@;
            let mut i: usize = 0;
            while i < entries.len()
                invariant
                    i <= entries.len(),
                    *value == Value::Object(*entries),
                    offenders_view(offenders@) == offenders_view(before) + object_offenders(
                        max_length,
                        *variable_values,
                        name@,
                        entries@.take(i as int),
                        follow_variables,
                    ),
                decreases entries.len() - i,
            {
                proof {
                    assert(entries@.take(i + 1).drop_last() =~= entries@.take(i as int));
                    assert(entries@.take(i + 1).last() == entries@[i as int]);
                    assert(decreases_to!(*value => (*value)->Object_0));
                    assert(decreases_to!(*entries => entries@));
                    assert(decreases_to!(entries@ => entries@[i as int]));
                    assert(decreases_to!(entries@[i as int] => entries@[i as int].1));
                }
                let field_name = path_with(&name, entries[i].0.as_str());
                find_input_size_offenders(
                    max_length,
                    offenders,
                    variable_values,
                    field_name,
                    &entries[i].1,
                    follow_variables,
                );
                i += 1;
                proof {
                    assert(offenders_view(offenders@) =~= offenders_view(before) + object_offenders(
                        max_length,
                        *variable_values,
                        name@,
                        entries@.take(i as int),
                        follow_variables,
                    ));
                }
            }
            proof { assert(entries@.take(i as int) =~= entries@); }
        },
        Value::Variable(v) => {
            if follow_variables {
                match variable_values.get(v) {
                    Some(val) => {
                        find_input_size_offenders(max_length, offenders, variable_values, name, val, false);
                    },
                    None => {
                        proof { assert(offenders_view(offenders@) =~= offenders_view(old(offenders)@) + Seq::empty()); }
                    },
                }
            } else {
                proof { assert(offenders_view(offenders@) =~= offenders_view(old(offenders)@) + Seq::empty()); }
            }
        },
        _ => {
            proof { assert(offenders_view(offenders@) =~= offenders_view(old(offenders)@) + Seq::empty()); }
        },
    }
}

/// Collects the list values of arguments that are longer than `max_length`.
pub struct InputSize<'a> {
    pub offenders: Vec<Offender>,
    pub max_length: usize,
    pub variable_values: &'a VariableValues,
}

impl<'a> InputSize<'a> {
    pub fn new(variable_values: &'a VariableValues, max_length: usize) -> (r: Self)
        ensures
            r.offenders@.len() == 0,
            r.max_length == max_length,
            r.variable_values == variable_values,
    {
        InputSize { offenders: Vec::new(), max_length, variable_values }
    }

    pub fn visit_variable_argument(&mut self, argument: &Argument)
        ensures
            final(self).max_length == old(self).max_length,
            final(self).variable_values == old(self).variable_values,
            offenders_view(final(self).offenders@) == offenders_view(old(self).offenders@)
                + value_offenders(
                old(self).max_length,
                *old(self).variable_values,
                argument.name@,
                argument.value,
                true,
            ),
    {
        let name = argument.name.clone();
        find_input_size_offenders(
            self.max_length,
            &mut self.offenders,
            self.variable_values,
            name,
            &argument.value,
            true,
        );
    }

    /// The offenders among the arguments of a walk.
    pub fn analyze_events(events: &Vec<Event>, variable_values: &'a VariableValues, max_length: usize) -> (r:
        Vec<Offender>)
        ensures
            offenders_view(r@) == events_offenders(max_length, *variable_values, events@),
    {
        let mut analyzer = InputSize::new(variable_values, max_length);
        let mut i: usize = 0;
        while i < events.len()
            invariant
                i <= events.len(),
                analyzer.max_length == max_length,
                analyzer.variable_values == variable_values,
                offenders_view(analyzer.offenders@) == events_offenders(
                    max_length,
                    *variable_values,
                    events@.take(i as int),
                ),
            decreases events.len() - i,
        {
            proof {
                assert(events@.take(i + 1).drop_last() =~= events@.take(i as int));
                assert(events@.take(i + 1).last() == events@[i as int]);
            }
            match &events[i] {
                Event::VisitArgument { argument, .. } => analyzer.visit_variable_argument(argument),
                _ => {
                    proof {
                        assert(events_offenders(max_length, *variable_values, events@.take(i + 1))
                            =~= events_offenders(max_length, *variable_values, events@.take(i as int)));
                    }
                },
            }
            i += 1;
        }
        proof { assert(events@.take(i as int) =~= events@); }
        analyzer.into_output()
    }

    /// The offenders of the chosen operation of the document.
    pub fn analyze(
        executable_document: &'a ExecutableDocument,
        schema_definition: &'a SchemaDefinition,
        operation_name: Option<&String>,
        variable_values: &'a VariableValues,
        max_length: usize,
    ) -> (r: Result<Vec<Offender>, OperationResolutionError>)
        requires
            schema_definition.wf(),
        ensures
            match r {
                Ok(offenders) => spec_resolved_events(
                    executable_document,
                    schema_definition,
                    spec_name_of(operation_name),
                    variable_values,
                ) matches Some(events) && offenders_view(offenders@) == events_offenders(
                    max_length,
                    *variable_values,
                    events,
                ),
                Err(e) => spec_resolved_events(
                    executable_document,
                    schema_definition,
                    spec_name_of(operation_name),
                    variable_values,
                ) is None && spec_resolution_error(operation_name, e),
            },
    {
        let events = match Orchestrator::analyze(
            executable_document,
            schema_definition,
            operation_name,
            variable_values,
        ) {
            Ok(events) => events,
            Err(e) => return Err(e),
        };
        Ok(Self::analyze_events(&events, variable_values, max_length))
    }
}

impl<'a> Analyzer for InputSize<'a> {
    type Output = Vec<Offender>;

    open spec fn ready(&self) -> bool {
        true
    }

    fn into_output(self) -> (r: Vec<Offender>)
        ensures
            r == self.offenders,
    {
        self.offenders
    }
}

/// The offenders of a walk are those of its first part followed by those of its
/// second: what one stretch of steps finds does not depend on what came before it.
pub proof fn lemma_events_offenders_concat(
    max_length: usize,
    variable_values: VariableValues,
    a: Seq<Event>,
    b: Seq<Event>,
)
    ensures
        events_offenders(max_length, variable_values, a + b) == events_offenders(
            max_length,
            variable_values,
            a,
        ) + events_offenders(max_length, variable_values, b),
    decreases b.len(),
{
    if b.len() == 0 {
        assert(a + b =~= a);
        assert(events_offenders(max_length, variable_values, a) + Seq::<(usize, Seq<char>)>::empty()
            =~= events_offenders(max_length, variable_values, a));
    } else {
        assert((a + b).drop_last() =~= a + b.drop_last());
        assert((a + b).last() == b.last());
        lemma_events_offenders_concat(max_length, variable_values, a, b.drop_last());
        let tail = match b.last() {
            Event::VisitArgument { argument, .. } => value_offenders(
                max_length,
                variable_values,
                argument.name@,
                argument.value,
                true,
            ),
            _ => Seq::empty(),
        };
        assert(events_offenders(max_length, variable_values, a) + events_offenders(
            max_length,
            variable_values,
            b.drop_last(),
        ) + tail =~= events_offenders(max_length, variable_values, a) + (events_offenders(
            max_length,
            variable_values,
            b.drop_last(),
        ) + tail));
    }
}

/// A single step that visits an argument finds the oversized lists of the argument's
/// value, under the argument's name; any other step finds none.
pub proof fn lemma_event_offenders(max_length: usize, variable_values: VariableValues, e: Event)
    ensures
        events_offenders(max_length, variable_values, seq![e]) == match e {
            Event::VisitArgument { argument, .. } => value_offenders(
                max_length,
                variable_values,
                argument.name@,
                argument.value,
                true,
            ),
            _ => Seq::empty(),
        },
{
    assert(seq![e].drop_last() =~= Seq::<Event>::empty());
    assert(seq![e].last() == e);
    assert(events_offenders(max_length, variable_values, Seq::<Event>::empty()) =~= Seq::<(usize, Seq<char>)>::empty());
    let r = match e {
        Event::VisitArgument { argument, .. } => value_offenders(
            max_length,
            variable_values,
            argument.name@,
            argument.value,
            true,
        ),
        _ => Seq::empty(),
    };
    assert(events_offenders(max_length, variable_values, seq![e]) == events_offenders(
        max_length,
        variable_values,
        seq![e].drop_last(),
    ) + r);
    assert(Seq::<(usize, Seq<char>)>::empty() + r =~= r);
}

/// Every argument a walk visits contributes its own offenders, in the order of the
/// walk: the offenders of the walk are those of the steps before an argument visit,
/// then those of that argument's value, then those of the steps after it.
pub proof fn lemma_each_argument_contributes(
    max_length: usize,
    variable_values: VariableValues,
    events: Seq<Event>,
    k: int,
)
    requires
        0 <= k < events.len(),
        events[k] is VisitArgument,
    ensures
        events_offenders(max_length, variable_values, events) == events_offenders(
            max_length,
            variable_values,
            events.take(k),
        ) + value_offenders(
            max_length,
            variable_values,
            events[k]->VisitArgument_argument.name@,
            events[k]->VisitArgument_argument.value,
            true,
        ) + events_offenders(max_length, variable_values, events.skip(k + 1)),
{
    assert(events =~= events.take(k) + seq![events[k]] + events.skip(k + 1));
    lemma_events_offenders_concat(max_length, variable_values, events.take(k) + seq![events[k]], events.skip(k + 1));
    lemma_events_offenders_concat(max_length, variable_values, events.take(k), seq![events[k]]);
    lemma_event_offenders(max_length, variable_values, events[k]);
}

} // verus!
