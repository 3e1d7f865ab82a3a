//! Input values, arguments and directives, as they appear in documents, schemas
//! and variable values.
use vstd::prelude::*;
use crate::integer::IntegerValue;
use crate::common::{first_index, lemma_first_index_is, lemma_first_index_none, str_eq};

verus! {

/// A GraphQL input value. Constant values (schema defaults, variable values) contain
/// no `Variable`. A float keeps the text it was written with.
pub enum Value {
    Variable(String),
    Integer(IntegerValue),
    Float(String),
    String(String),
    Boolean(bool),
    Null,
    Enum(String),
    List(Vec<Value>),
    Object(Vec<(String, Value)>),
}

/// Where a part of a document or schema stands in its source text: the offsets of
/// its first character and of the character after its last.
#[derive(PartialEq, Eq, Structural, Clone, Copy, Debug)]
pub struct Span {
    pub start: usize,
    pub end: usize,
}

/// A named argument of a field or directive.
pub struct Argument {
    pub name: String,
    pub value: Value,
    pub name_span: Span,
}

/// A directive application such as `@skip(if: true)`.
pub struct Directive {
    pub name: String,
    pub arguments: Vec<Argument>,
    /// The span of the directive's name.
    pub name_span: Span,
    /// The span of the whole directive, arguments included.
    pub span: Span,
}

/// Every integer literal in the value is well formed.
pub open spec fn value_wf(v: Value) -> bool
    decreases v,
{
    match v {
        Value::Integer(i) => i.wf(),
        Value::List(items) => forall|i: int| 0 <= i < items@.len() ==> value_wf(#[trigger] items@[i]),
        Value::Object(entries) => forall|i: int|
            0 <= i < entries@.len() ==> value_wf(#[trigger] entries@[i].1),
        _ => true,
    }
}

pub open spec fn arguments_wf(args: Seq<Argument>) -> bool {
    forall|i: int| 0 <= i < args.len() ==> value_wf(#[trigger] args[i].value)
}

pub open spec fn directives_wf(ds: Seq<Directive>) -> bool {
    forall|i: int| 0 <= i < ds.len() ==> arguments_wf(#[trigger] ds[i].arguments@)
}

/// Whether every integer literal in the value is well formed.
pub fn value_is_wf(v: &Value) -> (r: bool)
    ensures
        r == value_wf(*v),
    decreases *v,
{
    match v {
        Value::Integer(i) => i.check_wf(),
        Value::List(items) => {
            assert forall|j: int| 0 <= j < items@.len() implies decreases_to!(*v => #[trigger] items@[j]) by {
                assert(decreases_to!(*v => *items));
                assert(decreases_to!(*items => items@));
                assert(decreases_to!(items@ => items@[j]));
            }
            let mut k: usize = 0;
            while k < items.len()
                invariant
                    k <= items.len(),
                    value_wf(*v) <==> (forall|j: int| 0 <= j < items@.len() ==> value_wf(#[trigger] items@[j])),
                    forall|j: int| 0 <= j < items@.len() ==> decreases_to!(*v => #[trigger] items@[j]),
                    forall|j: int| 0 <= j < k ==> value_wf(#[trigger] items@[j]),
                decreases items.len() - k,
            {
                if !value_is_wf(&items[k]) {
                    return false;
                }
                k += 1;
            }
            true
        },
        Value::Object(entries) => {
            assert forall|j: int| 0 <= j < entries@.len() implies decreases_to!(*v => #[trigger] entries@[j].1) by {
                assert(decreases_to!(*v => *entries));
                assert(decreases_to!(*entries => entries@));
                assert(decreases_to!(entries@ => entries@[j]));
                assert(decreases_to!(entries@[j] => entries@[j].1));
            }
            let mut k: usize = 0;
            while k < entries.len()
                invariant
                    k <= entries.len(),
                    value_wf(*v) <==> (forall|j: int| 0 <= j < entries@.len() ==> value_wf(#[trigger] entries@[j].1)),
                    forall|j: int| 0 <= j < entries@.len() ==> decreases_to!(*v => #[trigger] entries@[j].1),
                    forall|j: int| 0 <= j < k ==> value_wf(#[trigger] entries@[j].1),
                decreases entries.len() - k,
            {
                if !value_is_wf(&entries[k].1) {
                    return false;
                }
                k += 1;
            }
            true
        },
        _ => true,
    }
}

/// Whether every argument's value is well formed.
pub fn arguments_are_wf(args: &Vec<Argument>) -> (r: bool)
    ensures
        r == arguments_wf(args@),
{
    let mut k: usize = 0;
    while k < args.len()
        invariant
            k <= args.len(),
            forall|j: int| 0 <= j < k ==> value_wf(#[trigger] args@[j].value),
        decreases args.len() - k,
    {
        if !value_is_wf(&args[k].value) {
            return false;
        }
        k += 1;
    }
    true
}

/// Whether every argument of every directive is well formed.
pub fn directives_are_wf(ds: &Vec<Directive>) -> (r: bool)
    ensures
        r == directives_wf(ds@),
{
    let mut k: usize = 0;
    while k < ds.len()
        invariant
            k <= ds.len(),
            forall|j: int| 0 <= j < k ==> arguments_wf(#[trigger] ds@[j].arguments@),
        decreases ds.len() - k,
    {
        if !arguments_are_wf(&ds[k].arguments) {
            return false;
        }
        k += 1;
    }
    true
}

/// The boolean a value holds, if it is a boolean.
pub open spec fn spec_as_boolean(v: Value) -> Option<bool> {
    match v {
        Value::Boolean(b) => Some(b),
        _ => None,
    }
}

/// The integer a value holds, if it is an integer.
pub open spec fn spec_as_integer(v: Value) -> Option<IntegerValue> {
    match v {
        Value::Integer(i) => Some(i),
        _ => None,
    }
}

impl Value {
    pub fn as_boolean(&self) -> (r: Option<bool>)
        ensures
            r == spec_as_boolean(*self),
    {
        match self {
            Value::Boolean(b) => Some(*b),
            _ => None,
        }
    }

    pub fn is_null(&self) -> (r: bool)
        ensures
            r == (*self is Null),
    {
        match self {
            Value::Null => true,
            _ => false,
        }
    }
}

/// Index of the first directive named `name`.
pub open spec fn directive_position(ds: Seq<Directive>, name: Seq<char>) -> Option<int> {
    first_index(ds, |d: Directive| d.name@ == name)
}

/// Index of the first argument named `name`.
pub open spec fn argument_position(args: Seq<Argument>, name: Seq<char>) -> Option<int> {
    first_index(args, |a: Argument| a.name@ == name)
}

pub fn find_directive(ds: &Vec<Directive>, name: &str) -> (r: Option<usize>)
    ensures
        r matches Some(i) ==> directive_position(ds@, name@) == Some(i as int) && i < ds@.len(),
        r is None ==> directive_position(ds@, name@) is None,
{
    let mut i: usize = 0;
    while i < ds.len()
        invariant
            i <= ds.len(),
            forall|j: int| 0 <= j < i ==> !((|d: Directive| d.name@ == name@)(#[trigger] ds@[j])),
        decreases ds.len() - i,
    {
        if str_eq(ds[i].name.as_str(), name) {
            proof { lemma_first_index_is(ds@, |d: Directive| d.name@ == name@, i as int); }
            return Some(i);
        }
        i += 1;
    }
    proof { lemma_first_index_none(ds@, |d: Directive| d.name@ == name@); }
    None
}

pub fn find_argument(args: &Vec<Argument>, name: &str) -> (r: Option<usize>)
    ensures
        r matches Some(i) ==> argument_position(args@, name@) == Some(i as int) && i < args@.len(),
        r is None ==> argument_position(args@, name@) is None,
{
    let mut i: usize = 0;
    while i < args.len()
        invariant
            i <= args.len(),
            forall|j: int| 0 <= j < i ==> !((|a: Argument| a.name@ == name@)(#[trigger] args@[j])),
        decreases args.len() - i,
    {
        if str_eq(args[i].name.as_str(), name) {
            proof { lemma_first_index_is(args@, |a: Argument| a.name@ == name@, i as int); }
            return Some(i);
        }
        i += 1;
    }
    proof { lemma_first_index_none(args@, |a: Argument| a.name@ == name@); }
    None
}

/// Index of the first field of an object value with the given key.
pub open spec fn entry_position(entries: Seq<(String, Value)>, key: Seq<char>) -> Option<int> {
    first_index(entries, |e: (String, Value)| e.0@ == key)
}

pub fn find_entry(entries: &Vec<(String, Value)>, key: &String) -> (r: Option<usize>)
    ensures
        r matches Some(i) ==> entry_position(entries@, key@) == Some(i as int) && i < entries@.len(),
        r is None ==> entry_position(entries@, key@) is None,
{
    let mut i: usize = 0;
    while i < entries.len()
        invariant
            i <= entries.len(),
            forall|j: int|
                0 <= j < i ==> !((|e: (String, Value)| e.0@ == key@)(#[trigger] entries@[j])),
        decreases entries.len() - i,
    {
        if entries[i].0 == *key {
            proof { lemma_first_index_is(entries@, |e: (String, Value)| e.0@ == key@, i as int); }
            return Some(i);
        }
        i += 1;
    }
    proof { lemma_first_index_none(entries@, |e: (String, Value)| e.0@ == key@); }
    None
}

} // verus!
