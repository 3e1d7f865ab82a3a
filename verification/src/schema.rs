//! The schema model: type definitions, fields, input values and directive definitions.
use vstd::prelude::*;
use crate::common::{first_index, lemma_first_index_is, lemma_first_index_none};
use crate::value::{Directive, Span, Value};

verus! {

/// A reference to a type: a named type or a list, either of which may be non-null.
pub enum TypeReference {
    Named { name: String, required: bool },
    List { inner: Box<TypeReference>, required: bool },
}

/// The locations at which a directive may be used.
#[derive(PartialEq, Eq, Structural, Clone, Copy)]
pub enum DirectiveLocation {
    Query,
    Mutation,
    Subscription,
    Field,
    FragmentDefinition,
    FragmentSpread,
    InlineFragment,
    VariableDefinition,
    Schema,
    Scalar,
    Object,
    FieldDefinition,
    ArgumentDefinition,
    Interface,
    Union,
    Enum,
    EnumValue,
    InputObject,
    InputFieldDefinition,
}

/// An argument or input field definition.
pub struct InputValueDefinition {
    pub name: String,
    pub type_ref: TypeReference,
    pub default_value: Option<Value>,
    pub directives: Vec<Directive>,
    pub name_span: Span,
}

pub struct FieldDefinition {
    pub name: String,
    pub arguments: Vec<InputValueDefinition>,
    pub type_ref: TypeReference,
    pub directives: Vec<Directive>,
}

pub struct EnumValueDefinition {
    pub name: String,
    pub directives: Vec<Directive>,
    pub name_span: Span,
}

pub enum TypeDefinitionKind {
    BuiltinScalar,
    CustomScalar,
    Object { fields: Vec<FieldDefinition>, interfaces: Vec<String> },
    Interface { fields: Vec<FieldDefinition>, interfaces: Vec<String> },
    Union { members: Vec<String> },
    Enum { values: Vec<EnumValueDefinition> },
    InputObject { fields: Vec<InputValueDefinition> },
}

pub struct TypeDefinition {
    pub name: String,
    pub kind: TypeDefinitionKind,
    pub directives: Vec<Directive>,
}

pub struct DirectiveDefinition {
    pub name: String,
    pub arguments: Vec<InputValueDefinition>,
    pub locations: Vec<DirectiveLocation>,
}

pub struct SchemaDefinition {
    pub types: Vec<TypeDefinition>,
    pub directives: Vec<DirectiveDefinition>,
    pub query: String,
    pub mutation: Option<String>,
    pub subscription: Option<String>,
}

/// The name of the named type at the bottom of a type reference.
pub open spec fn spec_base_name(t: TypeReference) -> Seq<char>
    decreases t,
{
    match t {
        TypeReference::Named { name, .. } => name@,
        TypeReference::List { inner, .. } => spec_base_name(*inner),
    }
}

pub open spec fn spec_is_required(t: TypeReference) -> bool {
    match t {
        TypeReference::Named { required, .. } => required,
        TypeReference::List { required, .. } => required,
    }
}

impl TypeReference {
    pub fn base_name(&self) -> (r: &String)
        ensures
            r@ == spec_base_name(*self),
        decreases self,
    {
        match self {
            TypeReference::Named { name, .. } => name,
            TypeReference::List { inner, .. } => inner.base_name(),
        }
    }

    pub fn is_required(&self) -> (r: bool)
        ensures
            r == spec_is_required(*self),
    {
        match self {
            TypeReference::Named { required, .. } => *required,
            TypeReference::List { required, .. } => *required,
        }
    }
}

/// First element of a sequence of named definitions with the given name.
pub open spec fn field_index(fields: Seq<FieldDefinition>, name: Seq<char>) -> Option<int> {
    first_index(fields, |f: FieldDefinition| f.name@ == name)
}

pub open spec fn input_value_index(ivds: Seq<InputValueDefinition>, name: Seq<char>) -> Option<int> {
    first_index(ivds, |d: InputValueDefinition| d.name@ == name)
}

/// The fields of an object or interface type.
pub open spec fn spec_fields_of(k: TypeDefinitionKind) -> Option<Seq<FieldDefinition>> {
    match k {
        TypeDefinitionKind::Object { fields, .. } => Some(fields@),
        TypeDefinitionKind::Interface { fields, .. } => Some(fields@),
        _ => None,
    }
}

pub open spec fn spec_is_composite(k: TypeDefinitionKind) -> bool {
    k is Object || k is Interface || k is Union
}

pub open spec fn spec_is_scalar_or_enum(k: TypeDefinitionKind) -> bool {
    k is BuiltinScalar || k is CustomScalar || k is Enum
}

pub open spec fn spec_is_input(k: TypeDefinitionKind) -> bool {
    k is BuiltinScalar || k is CustomScalar || k is Enum || k is InputObject
}

pub fn find_field(fields: &Vec<FieldDefinition>, name: &String) -> (r: Option<usize>)
    ensures
        r matches Some(i) ==> field_index(fields@, name@) == Some(i as int) && i < fields@.len(),
        r is None ==> field_index(fields@, name@) is None,
{
    let mut i: usize = 0;
    while i < fields.len()
        invariant
            i <= fields.len(),
            forall|j: int| 0 <= j < i ==> !((|f: FieldDefinition| f.name@ == name@)(#[trigger] fields@[j])),
        decreases fields.len() - i,
    {
        if fields[i].name == *name {
            proof { lemma_first_index_is(fields@, |f: FieldDefinition| f.name@ == name@, i as int); }
            return Some(i);
        }
        i += 1;
    }
    proof { lemma_first_index_none(fields@, |f: FieldDefinition| f.name@ == name@); }
    None
}

pub fn find_input_value(ivds: &Vec<InputValueDefinition>, name: &String) -> (r: Option<usize>)
    ensures
        r matches Some(i) ==> input_value_index(ivds@, name@) == Some(i as int) && i < ivds@.len(),
        r is None ==> input_value_index(ivds@, name@) is None,
{
    let mut i: usize = 0;
    while i < ivds.len()
        invariant
            i <= ivds.len(),
            forall|j: int|
                0 <= j < i ==> !((|d: InputValueDefinition| d.name@ == name@)(#[trigger] ivds@[j])),
        decreases ivds.len() - i,
    {
        if ivds[i].name == *name {
            proof { lemma_first_index_is(ivds@, |d: InputValueDefinition| d.name@ == name@, i as int); }
            return Some(i);
        }
        i += 1;
    }
    proof { lemma_first_index_none(ivds@, |d: InputValueDefinition| d.name@ == name@); }
    None
}

impl TypeDefinition {
    pub fn fields(&self) -> (r: Option<&Vec<FieldDefinition>>)
        ensures
            match r {
                Some(f) => spec_fields_of(self.kind) == Some(f@),
                None => spec_fields_of(self.kind) is None,
            },
    {
        match &self.kind {
            TypeDefinitionKind::Object { fields, .. } => Some(fields),
            TypeDefinitionKind::Interface { fields, .. } => Some(fields),
            _ => None,
        }
    }

    pub fn is_composite(&self) -> (r: bool)
        ensures
            r == spec_is_composite(self.kind),
    {
        match &self.kind {
            TypeDefinitionKind::Object { .. } => true,
            TypeDefinitionKind::Interface { .. } => true,
            TypeDefinitionKind::Union { .. } => true,
            _ => false,
        }
    }

    pub fn is_scalar_or_enum(&self) -> (r: bool)
        ensures
            r == spec_is_scalar_or_enum(self.kind),
    {
        match &self.kind {
            TypeDefinitionKind::BuiltinScalar => true,
            TypeDefinitionKind::CustomScalar => true,
            TypeDefinitionKind::Enum { .. } => true,
            _ => false,
        }
    }

    pub fn is_input(&self) -> (r: bool)
        ensures
            r == spec_is_input(self.kind),
    {
        match &self.kind {
            TypeDefinitionKind::BuiltinScalar => true,
            TypeDefinitionKind::CustomScalar => true,
            TypeDefinitionKind::Enum { .. } => true,
            TypeDefinitionKind::InputObject { .. } => true,
            _ => false,
        }
    }
}

impl SchemaDefinition {
    /// Index of the first type definition with the given name.
    pub open spec fn type_index(&self, name: Seq<char>) -> Option<int> {
        first_index(self.types@, |t: TypeDefinition| t.name@ == name)
    }

    pub open spec fn directive_index(&self, name: Seq<char>) -> Option<int> {
        first_index(self.directives@, |d: DirectiveDefinition| d.name@ == name)
    }

    /// Whether the object type named `object` declares that it implements `interface`.
    pub open spec fn implements(&self, t: TypeDefinition, interface: Seq<char>) -> bool {
        match t.kind {
            TypeDefinitionKind::Object { interfaces, .. } => exists|k: int|
                0 <= k < interfaces@.len() && #[trigger] interfaces@[k]@ == interface,
            _ => false,
        }
    }

    /// The root operation types the schema declares resolve to type definitions.
    pub open spec fn wf(&self) -> bool {
        &&& self.type_index(self.query@) is Some
        &&& (self.mutation matches Some(m) ==> self.type_index(m@) is Some)
        &&& (self.subscription matches Some(s) ==> self.type_index(s@) is Some)
    }

    /// Whether the root operation types the schema declares resolve to type definitions.
    pub fn check_wf(&self) -> (r: bool)
        ensures
            r == self.wf(),
    {
        if self.get_type_definition(&self.query).is_none() {
            return false;
        }
        let mutation_ok = match &self.mutation {
            Some(m) => self.get_type_definition(m).is_some(),
            None => true,
        };
        let subscription_ok = match &self.subscription {
            Some(t) => self.get_type_definition(t).is_some(),
            None => true,
        };
        mutation_ok && subscription_ok
    }

    pub fn get_type_definition(&self, name: &String) -> (r: Option<usize>)
        ensures
            r matches Some(i) ==> self.type_index(name@) == Some(i as int) && i < self.types@.len(),
            r is None ==> self.type_index(name@) is None,
    {
        let mut i: usize = 0;
        while i < self.types.len()
            invariant
                i <= self.types.len(),
                forall|j: int|
                    0 <= j < i ==> !((|t: TypeDefinition| t.name@ == name@)(#[trigger] self.types@[j])),
            decreases self.types.len() - i,
        {
            if self.types[i].name == *name {
                proof { lemma_first_index_is(self.types@, |t: TypeDefinition| t.name@ == name@, i as int); }
                return Some(i);
            }
            i += 1;
        }
        proof { lemma_first_index_none(self.types@, |t: TypeDefinition| t.name@ == name@); }
        None
    }

    pub fn get_directive_definition(&self, name: &String) -> (r: Option<usize>)
        ensures
            r matches Some(i) ==> self.directive_index(name@) == Some(i as int) && i < self.directives@.len(),
            r is None ==> self.directive_index(name@) is None,
    {
        let mut i: usize = 0;
        while i < self.directives.len()
            invariant
                i <= self.directives.len(),
                forall|j: int|
                    0 <= j < i ==> !((|d: DirectiveDefinition| d.name@ == name@)(
                        #[trigger] self.directives@[j],
                    )),
            decreases self.directives.len() - i,
        {
            if self.directives[i].name == *name {
                proof {
                    lemma_first_index_is(self.directives@, |d: DirectiveDefinition| d.name@ == name@, i as int);
                }
                return Some(i);
            }
            i += 1;
        }
        proof { lemma_first_index_none(self.directives@, |d: DirectiveDefinition| d.name@ == name@); }
        None
    }
}

/// Index of the first value of an enum type with the given name.
pub open spec fn enum_value_index(values: Seq<EnumValueDefinition>, name: Seq<char>) -> Option<int> {
    first_index(values, |e: EnumValueDefinition| e.name@ == name)
}

pub fn find_enum_value(values: &Vec<EnumValueDefinition>, name: &String) -> (r: Option<usize>)
    ensures
        r matches Some(i) ==> enum_value_index(values@, name@) == Some(i as int) && i < values@.len(),
        r is None ==> enum_value_index(values@, name@) is None,
{
    let mut i: usize = 0;
    while i < values.len()
        invariant
            i <= values.len(),
            forall|j: int|
                0 <= j < i ==> !((|e: EnumValueDefinition| e.name@ == name@)(#[trigger] values@[j])),
        decreases values.len() - i,
    {
        if values[i].name == *name {
            proof { lemma_first_index_is(values@, |e: EnumValueDefinition| e.name@ == name@, i as int); }
            return Some(i);
        }
        i += 1;
    }
    proof { lemma_first_index_none(values@, |e: EnumValueDefinition| e.name@ == name@); }
    None
}

/// Whether a type definition is an object type that declares the interface `name`.
pub open spec fn declares_interface(t: TypeDefinition, name: Seq<char>) -> bool {
    match t.kind {
        TypeDefinitionKind::Object { interfaces, .. } => exists|k: int|
            0 <= k < interfaces@.len() && #[trigger] interfaces@[k]@ == name,
        _ => false,
    }
}

/// The names of the object types among `types` that declare the interface `name`, in order.
pub open spec fn implementors(types: Seq<TypeDefinition>, name: Seq<char>) -> Seq<Seq<char>>
    decreases types.len(),
{
    if types.len() == 0 {
        Seq::empty()
    } else {
        implementors(types.drop_last(), name) + if declares_interface(types.last(), name) {
            seq![types.last().name@]
        } else {
            Seq::empty()
        }
    }
}

pub open spec fn strings_model(v: Seq<String>) -> Seq<Seq<char>> {
    v.map_values(|s: String| s@)
}

impl SchemaDefinition {
    /// The names of the object types a value of type `ty` can have: the type itself for
    /// an object type, the implementing object types for an interface, the members for
    /// a union, and none for other types.
    pub open spec fn possible_types(&self, ty: int) -> Seq<Seq<char>> {
        if 0 <= ty < self.types@.len() {
            let t = self.types@[ty];
            match t.kind {
                TypeDefinitionKind::Object { .. } => seq![t.name@],
                TypeDefinitionKind::Interface { .. } => implementors(self.types@, t.name@),
                TypeDefinitionKind::Union { members } => strings_model(members@),
                _ => Seq::empty(),
            }
        } else {
            Seq::empty()
        }
    }

    pub fn possible_type_names(&self, ty: usize) -> (r: Vec<String>)
        ensures
            strings_model(r@) == self.possible_types(ty as int),
    {
        if ty >= self.types.len() {
            let r: Vec<String> = Vec::new();
            proof { assert(strings_model(r@) =~= Seq::<Seq<char>>::empty()); }
            return r;
        }
        let t = &self.types[ty];
        match &t.kind {
            TypeDefinitionKind::Object { .. } => {
                let mut r: Vec<String> = Vec::new();
                r.push(t.name.clone());
                proof { assert(strings_model(r@) =~= seq![t.name@]); }
                r
            },
            TypeDefinitionKind::Interface { .. } => {
                let mut r: Vec<String> = Vec::new();
                let mut i: usize = 0;
                while i < self.types.len()
                    invariant
                        i <= self.types.len(),
                        ty < self.types.len(),
                        *t == self.types@[ty as int],
                        strings_model(r@) == implementors(self.types@.take(i as int), t.name@),
                    decreases self.types.len() - i,
                {
                    proof {
                        assert(self.types@.take(i + 1).drop_last() =~= self.types@.take(i as int));
                        assert(self.types@.take(i + 1).last() == self.types@[i as int]);
                    }
                    if declares(&self.types[i], &t.name) {
                        r.push(self.types[i].name.clone());
                    }
                    i += 1;
                    proof {
                        assert(strings_model(r@) =~= implementors(self.types@.take(i as int), t.name@));
                    }
                }
                proof { assert(self.types@.take(i as int) =~= self.types@); }
                r
            },
            TypeDefinitionKind::Union { members } => {
                let mut r: Vec<String> = Vec::new();
                let mut i: usize = 0;
                while i < members.len()
                    invariant
                        i <= members.len(),
                        strings_model(r@) == strings_model(members@).take(i as int),
                    decreases members.len() - i,
                {
                    let ghost before = r@;
                    r.push(members[i].clone());
                    proof {
                        assert(strings_model(r@) =~= strings_model(before).push(members@[i as int]@));
                        assert(strings_model(members@).take(i + 1) =~= strings_model(members@).take(
                            i as int,
                        ).push(members@[i as int]@));
                    }
                    i += 1;
                }
                proof { assert(strings_model(members@).take(i as int) =~= strings_model(members@)); }
                r
            },
            _ => {
                let r: Vec<String> = Vec::new();
                proof { assert(strings_model(r@) =~= Seq::<Seq<char>>::empty()); }
                r
            },
        }
    }
}

/// Whether `t` is an object type that declares the interface `name`.
pub fn declares(t: &TypeDefinition, name: &String) -> (r: bool)
    ensures
        r == declares_interface(*t, name@),
{
    match &t.kind {
        TypeDefinitionKind::Object { interfaces, .. } => {
            let mut k: usize = 0;
            while k < interfaces.len()
                invariant
                    k <= interfaces.len(),
                    t.kind is Object && t.kind->Object_interfaces == *interfaces,
                    forall|j: int| 0 <= j < k ==> interfaces@[j]@ != name@,
                decreases interfaces.len() - k,
            {
                if interfaces[k] == *name {
                    proof { assert(interfaces@[k as int]@ == name@); }
                    return true;
                }
                k += 1;
            }
            false
        },
        _ => false,
    }
}

} // verus!
