//! When two fields can be merged: equal arguments, and types of the same shape.
use vstd::prelude::*;
use crate::common::{last_index, lemma_last_index, lemma_last_index_is, lemma_last_index_none};
use crate::schema::{SchemaDefinition, TypeReference, spec_is_scalar_or_enum};
use crate::value::{Argument, Value, arguments_wf, value_wf};

verus! {

/// The index of the last entry of an object value with the given key.
pub open spec fn last_entry(entries: Seq<(String, Value)>, key: Seq<char>) -> Option<int> {
    last_index(entries, entry_keyed(key))
}

pub open spec fn entry_keyed(key: Seq<char>) -> spec_fn((String, Value)) -> bool {
    |e: (String, Value)| e.0@ == key
}

/// Whether two values are equal: lists item by item, objects as maps from each key to
/// the value of its last entry, integers by the number they denote, floats by their
/// text, and the other values by what they hold.
pub open spec fn values_eq(a: Value, b: Value) -> bool
    decreases a, 1nat, 0nat,
{
    match a {
        Value::Variable(x) => b matches Value::Variable(y) && x@ == y@,
        Value::Integer(x) => b matches Value::Integer(y) && x.spec_numeric() == y.spec_numeric(),
        Value::Float(x) => b matches Value::Float(y) && x@ == y@,
        Value::String(x) => b matches Value::String(y) && x@ == y@,
        Value::Boolean(x) => b matches Value::Boolean(y) && x == y,
        Value::Null => b is Null,
        Value::Enum(x) => b matches Value::Enum(y) && x@ == y@,
        Value::List(xs) => b matches Value::List(ys) && xs@.len() == ys@.len() && items_eq(
            a,
            ys@,
            xs@.len(),
        ),
        Value::Object(xs) => b matches Value::Object(ys) && entries_eq(a, ys@, xs@.len()) && keys_covered(
            xs@,
            ys@,
        ),
    }
}

/// The first `k` items of the list `a` equal those of `ys`.
pub open spec fn items_eq(a: Value, ys: Seq<Value>, k: nat) -> bool
    decreases a, 0nat, k,
{
    if k == 0 {
        true
    } else {
        match a {
            Value::List(xs) => if k <= xs@.len() && k <= ys.len() {
                proof {
                    assert(decreases_to!(a => xs));
                    assert(decreases_to!(xs => xs@));
                    assert(decreases_to!(xs@ => xs@[k - 1]));
                }
                items_eq(a, ys, (k - 1) as nat) && values_eq(xs@[k - 1], ys[k - 1])
            } else {
                false
            },
            _ => false,
        }
    }
}

/// Among the first `k` entries of the object `a`, each that is the last with its key
/// has an equal value under that key in `ys`.
pub open spec fn entries_eq(a: Value, ys: Seq<(String, Value)>, k: nat) -> bool
    decreases a, 0nat, k,
{
    if k == 0 {
        true
    } else {
        match a {
            Value::Object(xs) => if k <= xs@.len() {
                let e = xs@[k - 1];
                entries_eq(a, ys, (k - 1) as nat) && (last_entry(xs@, e.0@) == Some((k - 1) as int)
                    ==> match last_entry(ys, e.0@) {
                    Some(j) => {
                        proof {
                            assert(decreases_to!(a => xs));
                            assert(decreases_to!(xs => xs@));
                            assert(decreases_to!(xs@ => xs@[k - 1]));
                            assert(decreases_to!(xs@[k - 1] => xs@[k - 1].1));
                        }
                        values_eq(xs@[k - 1].1, ys[j].1)
                    },
                    None => false,
                })
            } else {
                false
            },
            _ => false,
        }
    }
}

/// Every key of `ys` is a key of `xs`.
pub open spec fn keys_covered(xs: Seq<(String, Value)>, ys: Seq<(String, Value)>) -> bool {
    forall|j: int| 0 <= j < ys.len() ==> (#[trigger] last_entry(xs, ys[j].0@)) is Some
}

proof fn lemma_items_eq_prefix(a: Value, ys: Seq<Value>, k: nat, k2: nat)
    requires
        items_eq(a, ys, k),
        k2 <= k,
    ensures
        items_eq(a, ys, k2),
    decreases k,
{
    if k2 < k {
        lemma_items_eq_prefix(a, ys, (k - 1) as nat, k2);
    }
}

proof fn lemma_entries_eq_prefix(a: Value, ys: Seq<(String, Value)>, k: nat, k2: nat)
    requires
        entries_eq(a, ys, k),
        k2 <= k,
    ensures
        entries_eq(a, ys, k2),
    decreases k,
{
    if k2 < k {
        lemma_entries_eq_prefix(a, ys, (k - 1) as nat, k2);
    }
}

fn find_last_entry(entries: &Vec<(String, Value)>, key: &String) -> (r: Option<usize>)
    ensures
        r matches Some(i) ==> last_entry(entries@, key@) == Some(i as int) && i < entries@.len(),
        r is None ==> last_entry(entries@, key@) is None,
{
    let mut i: usize = entries.len();
    while i > 0
        invariant
            i <= entries.len(),
            forall|j: int|
                i <= j < entries@.len() ==> !((entry_keyed(key@))(#[trigger] entries@[j])),
        decreases i,
    {
        if entries[i - 1].0 == *key {
            proof { lemma_last_index_is(entries@, entry_keyed(key@), i - 1); }
            return Some(i - 1);
        }
        i -= 1;
    }
    proof { lemma_last_index_none(entries@, entry_keyed(key@)); }
    None
}

/// Whether two values are equal, as `values_eq` says.
pub fn values_equal(a: &Value, b: &Value) -> (r: bool)
    requires
        value_wf(*a),
        value_wf(*b),
    ensures
        r == values_eq(*a, *b),
    decreases *a,
{
    match (a, b) {
        (Value::Variable(x), Value::Variable(y)) => *x == *y,
        (Value::Integer(x), Value::Integer(y)) => x.numerically_equal(y),
        (Value::Float(x), Value::Float(y)) => *x == *y,
        (Value::String(x), Value::String(y)) => *x == *y,
        (Value::Boolean(x), Value::Boolean(y)) => *x == *y,
        (Value::Null, Value::Null) => true,
        (Value::Enum(x), Value::Enum(y)) => *x == *y,
        (Value::List(xs), Value::List(ys)) => {
            if xs.len() != ys.len() {
                return false;
            }
            proof {
                assert(forall|k: int| 0 <= k < xs@.len() ==> value_wf(#[trigger] xs@[k]));
                assert(forall|k: int| 0 <= k < ys@.len() ==> value_wf(#[trigger] ys@[k]));
            }
            let mut i: usize = 0;
            while i < xs.len()
                invariant
                    i <= xs.len(),
                    xs@.len() == ys@.len(),
                    *a == Value::List(*xs),
                    *b == Value::List(*ys),
                    forall|k: int| 0 <= k < xs@.len() ==> value_wf(#[trigger] xs@[k]),
                    forall|k: int| 0 <= k < ys@.len() ==> value_wf(#[trigger] ys@[k]),
                    items_eq(*a, ys@, i as nat),
                decreases xs.len() - i,
            {
                proof {
                    assert(decreases_to!(*a => *xs));
                    assert(decreases_to!(*xs => xs@));
                    assert(decreases_to!(xs@ => xs@[i as int]));
                }
                if !values_equal(&xs[i], &ys[i]) {
                    proof {
                        if values_eq(*a, *b) {
                            lemma_items_eq_prefix(*a, ys@, xs@.len() as nat, (i + 1) as nat);
                        }
                    }
                    return false;
                }
                i += 1;
            }
            true
        },
        (Value::Object(xs), Value::Object(ys)) => {
            proof {
                assert(forall|k: int| 0 <= k < xs@.len() ==> value_wf(#[trigger] xs@[k].1));
                assert(forall|k: int| 0 <= k < ys@.len() ==> value_wf(#[trigger] ys@[k].1));
            }
            let mut i: usize = 0;
            while i < xs.len()
                invariant
                    i <= xs.len(),
                    *a == Value::Object(*xs),
                    *b == Value::Object(*ys),
                    forall|k: int| 0 <= k < xs@.len() ==> value_wf(#[trigger] xs@[k].1),
                    forall|k: int| 0 <= k < ys@.len() ==> value_wf(#[trigger] ys@[k].1),
                    entries_eq(*a, ys@, i as nat),
                decreases xs.len() - i,
            {
                let last = find_last_entry(xs, &xs[i].0);
                if last == Some(i) {
                    match find_last_entry(ys, &xs[i].0) {
                        Some(j) => {
                            proof {
                                assert(decreases_to!(*a => *xs));
                                assert(decreases_to!(*xs => xs@));
                                assert(decreases_to!(xs@ => xs@[i as int]));
                                assert(decreases_to!(xs@[i as int] => xs@[i as int].1));
                            }
                            if !values_equal(&xs[i].1, &ys[j].1) {
                                proof {
                                    if values_eq(*a, *b) {
                                        lemma_entries_eq_prefix(*a, ys@, xs@.len() as nat, (i + 1) as nat);
                                    }
                                }
                                return false;
                            }
                        },
                        None => {
                            proof {
                                if values_eq(*a, *b) {
                                    lemma_entries_eq_prefix(*a, ys@, xs@.len() as nat, (i + 1) as nat);
                                }
                            }
                            return false;
                        },
                    }
                }
                i += 1;
            }
            let mut j: usize = 0;
            while j < ys.len()
                invariant
                    j <= ys.len(),
                    *a == Value::Object(*xs),
                    *b == Value::Object(*ys),
                    entries_eq(*a, ys@, xs@.len() as nat),
                    forall|k: int| 0 <= k < j ==> (#[trigger] last_entry(xs@, ys@[k].0@)) is Some,
                decreases ys.len() - j,
            {
                if find_last_entry(xs, &ys[j].0).is_none() {
                    return false;
                }
                j += 1;
            }
            true
        },
        _ => false,
    }
}

/// The index of the last argument with the given name.
pub open spec fn last_argument(args: Seq<Argument>, name: Seq<char>) -> Option<int> {
    last_index(args, argument_named(name))
}

pub open spec fn argument_named(name: Seq<char>) -> spec_fn(Argument) -> bool {
    |a: Argument| a.name@ == name
}

/// Whether two argument lists are equal as maps from each name to the value of the
/// last argument with that name.
pub open spec fn arguments_eq(a: Seq<Argument>, b: Seq<Argument>) -> bool {
    forall|name: Seq<char>|
        match (#[trigger] last_argument(a, name), last_argument(b, name)) {
            (None, None) => true,
            (Some(i), Some(j)) => values_eq(a[i].value, b[j].value),
            _ => false,
        }
}

fn find_last_argument(args: &Vec<Argument>, name: &String) -> (r: Option<usize>)
    ensures
        r matches Some(i) ==> last_argument(args@, name@) == Some(i as int) && i < args@.len(),
        r is None ==> last_argument(args@, name@) is None,
{
    let mut i: usize = args.len();
    while i > 0
        invariant
            i <= args.len(),
            forall|j: int| i <= j < args@.len() ==> !((argument_named(name@))(#[trigger] args@[j])),
        decreases i,
    {
        if args[i - 1].name == *name {
            proof { lemma_last_index_is(args@, argument_named(name@), i - 1); }
            return Some(i - 1);
        }
        i -= 1;
    }
    proof { lemma_last_index_none(args@, argument_named(name@)); }
    None
}

/// Whether two argument lists are equal, as `arguments_eq` says.
pub fn arguments_equal(a: &Vec<Argument>, b: &Vec<Argument>) -> (r: bool)
    requires
        arguments_wf(a@),
        arguments_wf(b@),
    ensures
        r == arguments_eq(a@, b@),
{
    let mut i: usize = 0;
    while i < a.len()
        invariant
            i <= a.len(),
            arguments_wf(a@),
            arguments_wf(b@),
            forall|k: int|
                0 <= k < i ==> match (#[trigger] last_argument(a@, a@[k].name@), last_argument(
                    b@,
                    a@[k].name@,
                )) {
                    (None, None) => true,
                    (Some(x), Some(y)) => values_eq(a@[x].value, b@[y].value),
                    _ => false,
                },
        decreases a.len() - i,
    {
        let la = find_last_argument(a, &a[i].name);
        let lb = find_last_argument(b, &a[i].name);
        match (la, lb) {
            (Some(x), Some(y)) => {
                if !values_equal(&a[x].value, &b[y].value) {
                    proof {
                        let n = a@[i as int].name@;
                        assert(!match (last_argument(a@, n), last_argument(b@, n)) {
                            (None, None) => true,
                            (Some(x), Some(y)) => values_eq(a@[x].value, b@[y].value),
                            _ => false,
                        });
                    }
                    return false;
                }
            },
            (Some(_), None) => {
                proof {
                    let n = a@[i as int].name@;
                    assert(last_argument(a@, n) is Some && last_argument(b@, n) is None);
                }
                return false;
            },
            _ => {
                proof { lemma_last_index(a@, argument_named(a@[i as int].name@)); }
            },
        }
        i += 1;
    }
    let mut j: usize = 0;
    while j < b.len()
        invariant
            j <= b.len(),
            forall|k: int|
                0 <= k < a@.len() ==> match (#[trigger] last_argument(a@, a@[k].name@), last_argument(
                    b@,
                    a@[k].name@,
                )) {
                    (None, None) => true,
                    (Some(x), Some(y)) => values_eq(a@[x].value, b@[y].value),
                    _ => false,
                },
            forall|k: int| 0 <= k < j ==> (#[trigger] last_argument(a@, b@[k].name@)) is Some,
        decreases b.len() - j,
    {
        if find_last_argument(a, &b[j].name).is_none() {
            proof {
                let n = b@[j as int].name@;
                lemma_last_index(b@, argument_named(n));
                assert((argument_named(n))(b@[j as int]));
                assert(last_argument(a@, n) is None && last_argument(b@, n) is Some);
            }
            return false;
        }
        j += 1;
    }
    proof {
        assert forall|name: Seq<char>|
            match (#[trigger] last_argument(a@, name), last_argument(b@, name)) {
                (None, None) => true,
                (Some(i), Some(j)) => values_eq(a@[i].value, b@[j].value),
                _ => false,
            } by {
            lemma_last_index(a@, argument_named(name));
            lemma_last_index(b@, argument_named(name));
            match last_argument(a@, name) {
                Some(x) => {
                    assert(a@[x].name@ == name);
                    assert(last_argument(a@, a@[x].name@) == Some(x));
                },
                None => {
                    match last_argument(b@, name) {
                        Some(y) => {
                            assert(b@[y].name@ == name);
                            assert(last_argument(a@, b@[y].name@) is Some);
                        },
                        None => {},
                    }
                },
            }
        }
    }
    true
}

/// Whether the named type is a scalar or an enum of the schema.
pub open spec fn names_scalar_or_enum(schema: SchemaDefinition, name: Seq<char>) -> bool {
    match schema.type_index(name) {
        Some(k) => 0 <= k < schema.types@.len() && spec_is_scalar_or_enum(schema.types@[k].kind),
        None => false,
    }
}

/// Whether two output types have the same shape: the same lists with the same
/// nullability, around the same named type where either is a scalar or an enum.
pub open spec fn same_shape(schema: SchemaDefinition, a: TypeReference, b: TypeReference) -> bool
    decreases a,
{
    match (a, b) {
        (
            TypeReference::Named { name: na, required: ra },
            TypeReference::Named { name: nb, required: rb },
        ) => ra == rb && (!(names_scalar_or_enum(schema, na@) || names_scalar_or_enum(schema, nb@))
            || na@ == nb@),
        (
            TypeReference::List { inner: ia, required: ra },
            TypeReference::List { inner: ib, required: rb },
        ) => ra == rb && same_shape(schema, *ia, *ib),
        _ => false,
    }
}

fn is_scalar_or_enum_name(schema: &SchemaDefinition, name: &String) -> (r: bool)
    ensures
        r == names_scalar_or_enum(*schema, name@),
{
    match schema.get_type_definition(name) {
        Some(k) => schema.types[k].is_scalar_or_enum(),
        None => false,
    }
}

/// Whether two output types have the same shape, as `same_shape` says.
pub fn same_output_type_shape(schema: &SchemaDefinition, a: &TypeReference, b: &TypeReference) -> (r: bool)
    ensures
        r == same_shape(*schema, *a, *b),
    decreases *a,
{
    match (a, b) {
        (
            TypeReference::Named { name: na, required: ra },
            TypeReference::Named { name: nb, required: rb },
        ) => *ra == *rb && (!(is_scalar_or_enum_name(schema, na) || is_scalar_or_enum_name(schema, nb))
            || *na == *nb),
        (
            TypeReference::List { inner: ia, required: ra },
            TypeReference::List { inner: ib, required: rb },
        ) => *ra == *rb && same_output_type_shape(schema, ia, ib),
        _ => false,
    }
}

/// Every value equals itself, so a field never differs from itself in its arguments.
pub proof fn lemma_values_eq_reflexive(a: Value)
    ensures
        values_eq(a, a),
    decreases a, 1nat, 0nat,
{
    match a {
        Value::List(xs) => lemma_items_eq_reflexive(a, xs@.len()),
        Value::Object(xs) => {
            lemma_entries_eq_reflexive(a, xs@.len());
            assert forall|j: int| 0 <= j < xs@.len() implies (#[trigger] last_entry(xs@, xs@[j].0@)) is Some by {
                lemma_last_index(xs@, entry_keyed(xs@[j].0@));
                assert((entry_keyed(xs@[j].0@))(xs@[j]));
            }
        },
        _ => {},
    }
}

proof fn lemma_items_eq_reflexive(a: Value, k: nat)
    requires
        a is List,
        k <= a->List_0@.len(),
    ensures
        items_eq(a, a->List_0@, k),
    decreases a, 0nat, k,
{
    if k > 0 {
        let xs = a->List_0;
        lemma_items_eq_reflexive(a, (k - 1) as nat);
        assert(decreases_to!(a => xs));
        assert(decreases_to!(xs => xs@));
        assert(decreases_to!(xs@ => xs@[k - 1]));
        lemma_values_eq_reflexive(xs@[k - 1]);
    }
}

proof fn lemma_entries_eq_reflexive(a: Value, k: nat)
    requires
        a is Object,
        k <= a->Object_0@.len(),
    ensures
        entries_eq(a, a->Object_0@, k),
    decreases a, 0nat, k,
{
    if k > 0 {
        let xs = a->Object_0;
        lemma_entries_eq_reflexive(a, (k - 1) as nat);
        assert(decreases_to!(a => xs));
        assert(decreases_to!(xs => xs@));
        assert(decreases_to!(xs@ => xs@[k - 1]));
        assert(decreases_to!(xs@[k - 1] => xs@[k - 1].1));
        lemma_values_eq_reflexive(xs@[k - 1].1);
    }
}

/// Every list of arguments equals itself.
pub proof fn lemma_arguments_eq_reflexive(args: Seq<Argument>)
    ensures
        arguments_eq(args, args),
{
    assert forall|name: Seq<char>|
        match (#[trigger] last_argument(args, name), last_argument(args, name)) {
            (None, None) => true,
            (Some(i), Some(j)) => values_eq(args[i].value, args[j].value),
            _ => false,
        } by {
        match last_argument(args, name) {
            Some(i) => lemma_values_eq_reflexive(args[i].value),
            None => {},
        }
    }
}

/// Every output type has its own shape, so a field is never of another shape than
/// itself.
pub proof fn lemma_same_shape_reflexive(schema: SchemaDefinition, a: TypeReference)
    ensures
        same_shape(schema, a, a),
    decreases a,
{
    match a {
        TypeReference::List { inner, .. } => lemma_same_shape_reflexive(schema, *inner),
        _ => {},
    }
}

/// Having the same shape does not depend on which of two types comes first.
pub proof fn lemma_same_shape_symmetric(schema: SchemaDefinition, a: TypeReference, b: TypeReference)
    ensures
        same_shape(schema, a, b) == same_shape(schema, b, a),
    decreases a,
{
    match (a, b) {
        (TypeReference::List { inner: ia, .. }, TypeReference::List { inner: ib, .. }) => {
            lemma_same_shape_symmetric(schema, *ia, *ib)
        },
        _ => {},
    }
}

/// The non-null markers of a type, from the outside in: one for each list level and
/// one for the named type inside them.
pub open spec fn nullability(t: TypeReference) -> Seq<bool>
    decreases t,
{
    match t {
        TypeReference::Named { required, .. } => seq![required],
        TypeReference::List { inner, required } => seq![required] + nullability(*inner),
    }
}

/// The scalar or enum type that a type is built on, if it is built on one.
pub open spec fn leaf_name(schema: SchemaDefinition, t: TypeReference) -> Option<Seq<char>>
    decreases t,
{
    match t {
        TypeReference::Named { name, .. } => if names_scalar_or_enum(schema, name@) {
            Some(name@)
        } else {
            None
        },
        TypeReference::List { inner, .. } => leaf_name(schema, *inner),
    }
}

/// Types of the same shape are nullable in the same places: the same number of list
/// levels, each non-null in both or in neither, around named types that are both
/// non-null or both nullable. So `String!` and `String`, or `[Int]` and `[Int]!`, never
/// have the same shape.
pub proof fn lemma_same_shape_same_nullability(schema: SchemaDefinition, a: TypeReference, b: TypeReference)
    requires
        same_shape(schema, a, b),
    ensures
        nullability(a) == nullability(b),
    decreases a,
{
    match (a, b) {
        (TypeReference::List { inner: ia, .. }, TypeReference::List { inner: ib, .. }) => {
            lemma_same_shape_same_nullability(schema, *ia, *ib);
        },
        _ => {},
    }
}

/// Types of the same shape end in the same scalar or enum type, if either ends in one.
pub proof fn lemma_same_shape_same_leaf(schema: SchemaDefinition, a: TypeReference, b: TypeReference)
    requires
        same_shape(schema, a, b),
    ensures
        leaf_name(schema, a) == leaf_name(schema, b),
    decreases a,
{
    match (a, b) {
        (TypeReference::List { inner: ia, .. }, TypeReference::List { inner: ib, .. }) => {
            lemma_same_shape_same_leaf(schema, *ia, *ib);
        },
        _ => {},
    }
}

} // verus!
