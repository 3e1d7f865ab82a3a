//! An input object type must not reach itself through non-null, non-list fields, as
//! no value of it could then be written. From the type, each such field is followed:
//! a field of the type itself closes a cycle and is reported; a field of another input
//! object type is entered the first time that type is met.
use vstd::prelude::*;
use crate::schema::{InputValueDefinition, SchemaDefinition, TypeDefinition, TypeDefinitionKind, TypeReference};

verus! {

/// The number of type definitions whose names are not among `seen`.
pub open spec fn unseen_count(types: Seq<TypeDefinition>, seen: Seq<Seq<char>>) -> nat
    decreases types.len(),
{
    if types.len() == 0 {
        0
    } else {
        unseen_count(types.drop_last(), seen) + if seen.contains(types.last().name@) {
            0nat
        } else {
            1nat
        }
    }
}

proof fn lemma_unseen_count_le(types: Seq<TypeDefinition>, seen: Seq<Seq<char>>, name: Seq<char>)
    ensures
        unseen_count(types, seen.push(name)) <= unseen_count(types, seen),
    decreases types.len(),
{
    if types.len() > 0 {
        lemma_unseen_count_le(types.drop_last(), seen, name);
        let x = types.last().name@;
        if seen.contains(x) {
            let k = choose|k: int| 0 <= k < seen.len() && seen[k] == x;
            assert(seen.push(name)[k] == x);
        }
    }
}

/// Meeting a type that some definition is named after leaves fewer unseen.
proof fn lemma_unseen_count_push(types: Seq<TypeDefinition>, seen: Seq<Seq<char>>, name: Seq<char>, j: int)
    requires
        !seen.contains(name),
        0 <= j < types.len(),
        types[j].name@ == name,
    ensures
        unseen_count(types, seen.push(name)) < unseen_count(types, seen),
    decreases types.len(),
{
    lemma_unseen_count_le(types.drop_last(), seen, name);
    if j < types.len() - 1 {
        lemma_unseen_count_push(types.drop_last(), seen, name, j);
    }
    let x = types.last().name@;
    if seen.contains(x) {
        let k = choose|k: int| 0 <= k < seen.len() && seen[k] == x;
        assert(seen.push(name)[k] == x);
    }
    if j == types.len() - 1 {
        assert(seen.push(name)[seen.len() as int] == name);
    }
}

pub open spec fn object_fields(kind: TypeDefinitionKind) -> Seq<InputValueDefinition> {
    match kind {
        TypeDefinitionKind::InputObject { fields } => fields@,
        _ => Seq::empty(),
    }
}

/// The fields that close a cycle back to `target`, found from the type at index `t`,
/// and the names of the input object types met so far.
pub open spec fn visit_references<'a>(
    schema: &'a SchemaDefinition,
    target: Seq<char>,
    t: int,
    seen: Seq<Seq<char>>,
) -> (Seq<&'a TypeReference>, Seq<Seq<char>>)
    decreases unseen_count(schema.types@, seen), 1nat, 0nat,
{
    if 0 <= t < schema.types@.len() {
        let fields = object_fields(schema.types@[t].kind);
        field_references(schema, target, fields, fields.len(), seen)
    } else {
        (Seq::empty(), seen)
    }
}

/// The same for the first `k` fields.
pub open spec fn field_references<'a>(
    schema: &'a SchemaDefinition,
    target: Seq<char>,
    fields: Seq<InputValueDefinition>,
    k: nat,
    seen: Seq<Seq<char>>,
) -> (Seq<&'a TypeReference>, Seq<Seq<char>>)
    decreases unseen_count(schema.types@, seen), 0nat, k,
{
    if k == 0 || k > fields.len() {
        (Seq::empty(), seen)
    } else {
        let (refs, s1) = field_references(schema, target, fields, (k - 1) as nat, seen);
        match fields[k - 1].type_ref {
            TypeReference::Named { name, required } => if !required {
                (refs, s1)
            } else if name@ == target {
                (refs.push(&fields[k - 1].type_ref), s1)
            } else {
                match schema.type_index(name@) {
                    Some(j) => if 0 <= j < schema.types@.len() && schema.types@[j].kind is InputObject
                        && !s1.contains(name@) {
                        let s2 = s1.push(name@);
                        if unseen_count(schema.types@, s2) < unseen_count(schema.types@, seen) {
                            let (more, s3) = visit_references(schema, target, j, s2);
                            (refs + more, s3)
                        } else {
                            (refs, s2)
                        }
                    } else {
                        (refs, s1)
                    },
                    None => (refs, s1),
                }
            },
            TypeReference::List { .. } => (refs, s1),
        }
    }
}

pub open spec fn seen_view(v: Seq<&String>) -> Seq<Seq<char>> {
    v.map_values(|s: &String| s@)
}

fn contains_seen(v: &Vec<&String>, name: &String) -> (r: bool)
    ensures
        r == seen_view(v@).contains(name@),
{
    let mut i: usize = 0;
    while i < v.len()
        invariant
            i <= v.len(),
            forall|j: int| 0 <= j < i ==> seen_view(v@)[j] != name@,
        decreases v.len() - i,
    {
        if *v[i] == *name {
            proof { assert(seen_view(v@)[i as int] == name@); }
            return true;
        }
        i += 1;
    }
    false
}

/// Follows the non-null fields of the type at index `t`, adding to `circular` those that
/// close a cycle back to `target`.
pub fn visit_for_circular_references<'a>(
    schema: &'a SchemaDefinition,
    target: &String,
    t: usize,
    circular: &mut Vec<&'a TypeReference>,
    seen: &mut Vec<&'a String>,
)
    requires
        t < schema.types@.len(),
    ensures
        (final(circular)@, seen_view(final(seen)@)) == ({
            let r = visit_references(schema, target@, t as int, seen_view(old(seen)@));
            (old(circular)@ + r.0, r.1)
        }),
        unseen_count(schema.types@, seen_view(final(seen)@)) <= unseen_count(
            schema.types@,
            seen_view(old(seen)@),
        ),
    decreases unseen_count(schema.types@, seen_view(old(seen)@)), 1nat, 0nat,
{
    let ghost c0 = circular@;
    let ghost s0 = seen_view(seen@);
    let fields: &'a Vec<InputValueDefinition> = match &schema.types[t].kind {
        TypeDefinitionKind::InputObject { fields } => fields,
        _ => {
            proof { assert(circular@ =~= c0 + Seq::<&'a TypeReference>::empty()); }
            return;
        },
    };
    let ghost fv = fields@;
    proof { assert(object_fields(schema.types@[t as int].kind) == fv); }
    let mut k: usize = 0;
    proof { assert(circular@ =~= c0 + Seq::<&'a TypeReference>::empty()); }
    while k < fields.len()
        invariant
            k <= fields@.len(),
            fv == fields@,
            ({
                let r = field_references(schema, target@, fv, k as nat, s0);
                circular@ == c0 + r.0 && seen_view(seen@) == r.1
            }),
            unseen_count(schema.types@, seen_view(seen@)) <= unseen_count(schema.types@, s0),
            s0 == seen_view(old(seen)@),
            c0 == old(circular)@,
        decreases fields@.len() - k,
    {
        let ghost ck = circular@;
        let ghost sk = seen_view(seen@);
        let f: &'a InputValueDefinition = &fields[k];
        match &f.type_ref {
            TypeReference::Named { name, required } => {
                if *required {
                    if *name == *target {
                        circular.push(&f.type_ref);
                        proof { assert(circular@ =~= c0 + field_references(schema, target@, fv, (k + 1) as nat, s0).0); }
                    } else {
                        match schema.get_type_definition(name) {
                            Some(j) => {
                                let is_input_object = match &schema.types[j].kind {
                                    TypeDefinitionKind::InputObject { .. } => true,
                                    _ => false,
                                };
                                if is_input_object && !contains_seen(seen, name) {
                                    seen.push(name);
                                    proof {
                                        assert(seen_view(seen@) =~= sk.push(name@));
                                        crate::common::lemma_first_index(
                                            schema.types@,
                                            |td: TypeDefinition| td.name@ == name@,
                                        );
                                        lemma_unseen_count_push(schema.types@, sk, name@, j as int);
                                    }
                                    let ghost before = circular@;
                                    visit_for_circular_references(schema, target, j, circular, seen);
                                    proof {
                                        let r = visit_references(schema, target@, j as int, sk.push(name@));
                                        assert(circular@ =~= ck + r.0);
                                        assert(circular@ =~= c0 + field_references(schema, target@, fv, (k + 1) as nat, s0).0);
                                    }
                                }
                            },
                            None => {},
                        }
                    }
                }
            },
            TypeReference::List { .. } => {},
        }
        k += 1;
    }
}

/// The reference is a non-null reference to the type named `target`.
pub open spec fn refers_back(r: TypeReference, target: Seq<char>) -> bool {
    r matches TypeReference::Named { name, required } && required && name@ == target
}

pub open spec fn all_refer_back<'a>(refs: Seq<&'a TypeReference>, target: Seq<char>) -> bool {
    forall|i: int| 0 <= i < refs.len() ==> refers_back(*#[trigger] refs[i], target)
}

/// Every reference reported for a type is a non-null reference to that very type:
/// the field that closes the cycle.
pub proof fn lemma_circular_references_refer_back<'a>(
    schema: &'a SchemaDefinition,
    target: Seq<char>,
    t: int,
    seen: Seq<Seq<char>>,
)
    ensures
        all_refer_back(visit_references(schema, target, t, seen).0, target),
    decreases unseen_count(schema.types@, seen), 1nat, 0nat,
{
    if 0 <= t < schema.types@.len() {
        let fields = object_fields(schema.types@[t].kind);
        lemma_field_references_refer_back(schema, target, fields, fields.len(), seen);
    }
}

proof fn lemma_field_references_refer_back<'a>(
    schema: &'a SchemaDefinition,
    target: Seq<char>,
    fields: Seq<InputValueDefinition>,
    k: nat,
    seen: Seq<Seq<char>>,
)
    ensures
        all_refer_back(field_references(schema, target, fields, k, seen).0, target),
    decreases unseen_count(schema.types@, seen), 0nat, k,
{
    if k > 0 && k <= fields.len() {
        let (refs, s1) = field_references(schema, target, fields, (k - 1) as nat, seen);
        lemma_field_references_refer_back(schema, target, fields, (k - 1) as nat, seen);
        let r = field_references(schema, target, fields, k, seen).0;
        match fields[k - 1].type_ref {
            TypeReference::Named { name, required } => if required && name@ != target {
                match schema.type_index(name@) {
                    Some(j) => if 0 <= j < schema.types@.len() && schema.types@[j].kind is InputObject
                        && !s1.contains(name@) {
                        let s2 = s1.push(name@);
                        if unseen_count(schema.types@, s2) < unseen_count(schema.types@, seen) {
                            lemma_circular_references_refer_back(schema, target, j, s2);
                            let more = visit_references(schema, target, j, s2).0;
                            assert(r == refs + more);
                            assert forall|i: int| 0 <= i < r.len() implies refers_back(*#[trigger] r[i], target) by {
                                if i < refs.len() {
                                    assert(r[i] == refs[i]);
                                } else {
                                    assert(r[i] == more[i - refs.len()]);
                                }
                            }
                        }
                    } else {
                    },
                    None => {},
                }
            } else if required {
                assert forall|i: int| 0 <= i < r.len() implies refers_back(*#[trigger] r[i], target) by {
                    if i < refs.len() {
                        assert(r[i] == refs[i]);
                    }
                }
            },
            TypeReference::List { .. } => {},
        }
    }
}

} // verus!
