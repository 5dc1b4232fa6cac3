//! The registry the type generator fills: named type definitions in
//! registration order, and the references generated fields use.

use vstd::prelude::*;

verus! {

/// A reference to a type a generated field can have.
#[derive(Debug)]
#[verifier::ext_equal]
pub enum TypeRef {
    /// A string that must equal one constant.
    ConstString(String),
    /// A named definition.
    Ref(String),
    Str,
    Bytes,
    Boolean,
    Number,
    Integer,
    /// A list of another type.
    List(Box<TypeRef>),
    /// Any value at all.
    Any,
    /// Any object.
    AnyObject,
    /// Any string-keyed map with values of one type.
    AnyMap(Box<TypeRef>),
}

impl TypeRef {
    /// A copy with the same value.
    pub fn duplicate(&self) -> (r: TypeRef)
        ensures
            r == *self,
        decreases self,
    {
        match self {
            TypeRef::ConstString(s) => TypeRef::ConstString(s.clone()),
            TypeRef::Ref(s) => TypeRef::Ref(s.clone()),
            TypeRef::Str => TypeRef::Str,
            TypeRef::Bytes => TypeRef::Bytes,
            TypeRef::Boolean => TypeRef::Boolean,
            TypeRef::Number => TypeRef::Number,
            TypeRef::Integer => TypeRef::Integer,
            TypeRef::List(inner) => TypeRef::List(Box::new(inner.duplicate())),
            TypeRef::Any => TypeRef::Any,
            TypeRef::AnyObject => TypeRef::AnyObject,
            TypeRef::AnyMap(inner) => TypeRef::AnyMap(Box::new(inner.duplicate())),
        }
    }

    /// The variant name a reference contributes to a generated enum;
    /// defined for named references only.
    pub fn variant_name(&self) -> (r: String)
        requires
            self matches TypeRef::Ref(_),
        ensures
            r == self->Ref_0,
    {
        match self {
            TypeRef::Ref(name) => name.clone(),
            _ => String::new(),
        }
    }
}

/// A variant of a generated enum.
#[derive(Debug)]
#[verifier::ext_equal]
pub struct VariantDef {
    pub description: Option<String>,
    pub name: String,
    pub ty: Option<TypeRef>,
    pub rename: Option<String>,
}

/// A generated enum.
#[derive(Debug)]
#[verifier::ext_equal]
pub struct EnumDef {
    pub name: String,
    pub description: Option<String>,
    pub variants: Vec<VariantDef>,
    pub untagged: bool,
}

/// A field of a generated struct.
#[derive(Debug)]
#[verifier::ext_equal]
pub struct FieldDef {
    pub description: Option<String>,
    pub name: String,
    pub rename: Option<String>,
    pub ty: TypeRef,
    pub required: bool,
}

/// A generated struct.
#[derive(Debug)]
#[verifier::ext_equal]
pub struct StructDef {
    pub name: String,
    pub description: Option<String>,
    pub additional_parameters: Option<TypeRef>,
    pub fields: Vec<FieldDef>,
}

/// A generated newtype wrapper.
#[derive(Debug)]
#[verifier::ext_equal]
pub struct NewTypeDef {
    pub name: String,
    pub description: Option<String>,
    pub inner_type: TypeRef,
    pub transparent: bool,
}

/// Any generated definition.
#[derive(Debug)]
#[verifier::ext_equal]
pub enum TypeDef {
    Enum(EnumDef),
    Struct(StructDef),
    NewType(NewTypeDef),
}

/// Definitions equal in every observable part: same shape, same
/// strings, and element-for-element equal lists.
pub open spec fn def_eq(a: TypeDef, b: TypeDef) -> bool {
    match (a, b) {
        (TypeDef::Enum(x), TypeDef::Enum(y)) => x.name == y.name && x.description == y.description
            && x.variants@ == y.variants@ && x.untagged == y.untagged,
        (TypeDef::Struct(x), TypeDef::Struct(y)) => x.name == y.name && x.description
            == y.description && x.additional_parameters == y.additional_parameters && x.fields@
            == y.fields@,
        (TypeDef::NewType(x), TypeDef::NewType(y)) => x == y,
        _ => false,
    }
}

/// Named definitions keyed uniquely by name, plus the registration
/// order; a re-registered name keeps its place but gains the new
/// definition, and is listed again.
pub struct TypeRegistry {
    pub types: Vec<(String, TypeDef)>,
    pub order: Vec<String>,
}

/// The value bound to a name, names compared by their characters.
pub open spec fn spec_types_get(types: Seq<(String, TypeDef)>, name: String) -> Option<TypeDef>
    decreases types,
{
    if types.len() == 0 {
        None
    } else if types[0].0@ == name@ {
        Some(types[0].1)
    } else {
        spec_types_get(types.drop_first(), name)
    }
}

/// Binding update: replaces in place, or appends a new binding.
pub open spec fn spec_types_insert(
    types: Seq<(String, TypeDef)>,
    name: String,
    def: TypeDef,
) -> Seq<(String, TypeDef)>
    decreases types,
{
    if types.len() == 0 {
        seq![(name, def)]
    } else if types[0].0@ == name@ {
        seq![(name, def)] + types.drop_first()
    } else {
        seq![types[0]] + spec_types_insert(types.drop_first(), name, def)
    }
}

impl TypeRegistry {
    /// An empty registry.
    pub fn new() -> (r: TypeRegistry)
        ensures
            r.types@ == Seq::<(String, TypeDef)>::empty(),
            r.order@ == Seq::<String>::empty(),
    {
        TypeRegistry { types: Vec::new(), order: Vec::new() }
    }

    /// Register a definition under a name: the binding replaces any
    /// earlier one, and the name is appended to the order.
    #[verifier::loop_isolation(false)]
    pub fn register(&mut self, name: String, type_def: TypeDef)
        ensures
            final(self).types@ == spec_types_insert(old(self).types@, name, type_def),
            final(self).order@ == old(self).order@.push(name),
    {
        let name_for_order = name.clone();
        let ghost nval = name;
        let n = self.types.len();
        let mut i: usize = 0;
        let mut found: bool = false;
        let mut at: usize = 0;
        while i < n
            invariant
                0 <= i <= n,
                n == self.types@.len(),
                self.types@ == old(self).types@,
                self.order@ == old(self).order@,
                !found ==> forall|j: int| 0 <= j < i ==> (#[trigger] self.types@[j]).0@ != name@,
                found ==> at < i && self.types@[at as int].0@ == name@ && forall|j: int|
                    0 <= j < at ==> (#[trigger] self.types@[j]).0@ != name@,
            decreases n - i,
        {
            if !found {
                if self.types[i].0 == name {
                    found = true;
                    at = i;
                }
            }
            i = i + 1;
        }
        if found {
            let ghost pre = self.types@;
            self.types[at] = (name, type_def);
            proof {
                lemma_types_insert_at(pre, nval, type_def, at as int);
                assert(self.types@ =~= spec_types_insert(pre, nval, type_def));
            }
        } else {
            let ghost pre = self.types@;
            self.types.push((name, type_def));
            proof {
                lemma_types_insert_at(pre, nval, type_def, pre.len() as int);
                assert(self.types@ =~= spec_types_insert(pre, nval, type_def));
            }
        }
        self.order.push(name_for_order);
    }

    /// The registered definitions, one per entry of the order, each
    /// under its current binding; a name with no binding contributes
    /// nothing.
    pub open spec fn spec_iter_from(self, k: int) -> Seq<(String, TypeDef)>
        decreases self.order@.len() - k,
    {
        if k < 0 || k >= self.order@.len() {
            Seq::empty()
        } else {
            (match spec_types_get(self.types@, self.order@[k]) {
                Some(def) => seq![(self.order@[k], def)],
                None => Seq::empty(),
            }) + self.spec_iter_from(k + 1)
        }
    }

    /// Walk the registration order and list each name's binding.
    #[verifier::loop_isolation(false)]
    pub fn iter(&self) -> (r: Vec<(String, TypeDef)>)
        ensures
            r@.len() == self.spec_iter_from(0).len(),
            forall|i: int| 0 <= i < r@.len() ==> (#[trigger] r@[i]).0 == self.spec_iter_from(0)[i].0
                && def_eq(r@[i].1, self.spec_iter_from(0)[i].1),
    {
        let n = self.order.len();
        let mut out: Vec<(String, TypeDef)> = Vec::new();
        let mut k: usize = 0;
        let ghost target = self.spec_iter_from(0);
        while k < n
            invariant
                0 <= k <= n,
                n == self.order@.len(),
                target == self.spec_iter_from(0),
                out@.len() + self.spec_iter_from(k as int).len() == target.len(),
                forall|i: int| 0 <= i < out@.len() ==> (#[trigger] out@[i]).0 == target[i].0
                    && def_eq(out@[i].1, target[i].1),
                forall|i: int| out@.len() <= i < target.len() ==> #[trigger] target[i]
                    == self.spec_iter_from(k as int)[i - out@.len()],
            decreases n - k,
        {
            match self.types_get(&self.order[k]) {
                Some(def) => {
                    let ghost pre = out@;
                    proof {
                        assert(self.spec_iter_from(k as int) == seq![
                            (self.order@[k as int], spec_types_get(
                                self.types@,
                                self.order@[k as int],
                            )->0),
                        ] + self.spec_iter_from(k + 1 as int));
                        assert(target[pre.len() as int] == self.spec_iter_from(k as int)[0]);
                    }
                    out.push((self.order[k].clone(), def));
                },
                None => {
                    proof {
                        assert(self.spec_iter_from(k as int) == self.spec_iter_from(k + 1 as int));
                    }
                },
            }
            k = k + 1;
        }
        out
    }

    /// Look a binding up by name, returning a copy of its definition.
    #[verifier::loop_isolation(false)]
    fn types_get(&self, name: &String) -> (r: Option<TypeDef>)
        ensures
            match r {
                Some(def) => spec_types_get(self.types@, *name) matches Some(stored) && def_eq(
                    def,
                    stored,
                ),
                None => spec_types_get(self.types@, *name) is None,
            },
    {
        proof {
            assert(self.types@.subrange(0, self.types@.len() as int) =~= self.types@);
        }
        let n = self.types.len();
        let mut i: usize = 0;
        while i < n
            invariant
                0 <= i <= n,
                n == self.types@.len(),
                spec_types_get(self.types@, *name) == spec_types_get(
                    self.types@.subrange(i as int, n as int),
                    *name,
                ),
            decreases n - i,
        {
            proof {
                assert(self.types@.subrange(i as int, n as int)[0] == self.types@[i as int]);
                assert(self.types@.subrange(i as int, n as int).drop_first()
                    =~= self.types@.subrange(i + 1 as int, n as int));
            }
            if self.types[i].0 == *name {
                return Some(duplicate_type_def(&self.types[i].1));
            }
            i = i + 1;
        }
        proof {
            assert(self.types@.subrange(n as int, n as int) =~= Seq::<(String, TypeDef)>::empty());
        }
        None
    }
}

/// Binding update, characterized by the first matching index.
pub proof fn lemma_types_insert_at(
    types: Seq<(String, TypeDef)>,
    name: String,
    def: TypeDef,
    i: int,
)
    requires
        0 <= i <= types.len(),
        forall|j: int| 0 <= j < i ==> (#[trigger] types[j]).0@ != name@,
        i < types.len() ==> types[i].0@ == name@,
    ensures
        i < types.len() ==> spec_types_insert(types, name, def) == types.update(i, (name, def)),
        i == types.len() ==> spec_types_insert(types, name, def) == types.push((name, def)),
    decreases types,
{
    if types.len() == 0 {
        assert(spec_types_insert(types, name, def) =~= types.push((name, def)));
    } else if types[0].0@ == name@ {
        assert(i == 0);
        assert(spec_types_insert(types, name, def) =~= types.update(0, (name, def)));
    } else {
        assert(i >= 1);
        assert(forall|j: int| 0 <= j < types.drop_first().len() ==> #[trigger] types.drop_first()[j] == types[j + 1]);
        lemma_types_insert_at(types.drop_first(), name, def, i - 1);
        if i < types.len() {
            assert(spec_types_insert(types, name, def) =~= types.update(i, (name, def)));
        } else {
            assert(spec_types_insert(types, name, def) =~= types.push((name, def)));
        }
    }
}


/// Whether a word needs escaping as a generated field name.  The list
/// covers the keywords the schema's property names actually collide
/// with.
pub fn is_rust_keyword(word: &str) -> (r: bool)
    ensures
        r == (word@ == "type"@ || word@ == "ref"@),
{
    let owned = String::from_str(word);
    owned == String::from_str("type") || owned == String::from_str("ref")
}

/// A copy of a definition with the same value.
pub fn duplicate_type_def(d: &TypeDef) -> (r: TypeDef)
    ensures
        def_eq(r, *d),
{
    match d {
        TypeDef::Enum(e) => {
            let copy = TypeDef::Enum(
                EnumDef {
                    name: e.name.clone(),
                    description: duplicate_opt_string(&e.description),
                    variants: duplicate_variants(&e.variants),
                    untagged: e.untagged,
                },
            );
            copy
        },
        TypeDef::Struct(st) => {
            let copy = TypeDef::Struct(
                StructDef {
                    name: st.name.clone(),
                    description: duplicate_opt_string(&st.description),
                    additional_parameters: match &st.additional_parameters {
                        Some(t) => Some(t.duplicate()),
                        None => None,
                    },
                    fields: duplicate_fields(&st.fields),
                },
            );
            copy
        },
        TypeDef::NewType(nt) => {
            let copy = TypeDef::NewType(
                NewTypeDef {
                    name: nt.name.clone(),
                    description: duplicate_opt_string(&nt.description),
                    inner_type: nt.inner_type.duplicate(),
                    transparent: nt.transparent,
                },
            );
            copy
        },
    }
}

/// A copy of an optional string with the same value.
fn duplicate_opt_string(d: &Option<String>) -> (r: Option<String>)
    ensures
        r == *d,
{
    match d {
        Some(s) => Some(s.clone()),
        None => None,
    }
}

/// A copy of a variant list with the same value.
fn duplicate_variants(vs: &Vec<VariantDef>) -> (r: Vec<VariantDef>)
    ensures
        r@ == vs@,
{
    let n = vs.len();
    let mut out: Vec<VariantDef> = Vec::new();
    let mut i: usize = 0;
    while i < n
        invariant
            0 <= i <= n,
            n == vs@.len(),
            out@ == vs@.subrange(0, i as int),
        decreases n - i,
    {
        let v = &vs[i];
        let copy = VariantDef {
            description: duplicate_opt_string(&v.description),
            name: v.name.clone(),
            ty: match &v.ty {
                Some(t) => Some(t.duplicate()),
                None => None,
            },
            rename: duplicate_opt_string(&v.rename),
        };
        proof {
            assert(copy == vs@[i as int]);
            assert(vs@.subrange(0, i + 1 as int) =~= vs@.subrange(0, i as int).push(
                vs@[i as int],
            ));
        }
        out.push(copy);
        i = i + 1;
    }
    proof {
        assert(vs@.subrange(0, n as int) =~= vs@);
    }
    out
}

/// A copy of a field list with the same value.
fn duplicate_fields(fs: &Vec<FieldDef>) -> (r: Vec<FieldDef>)
    ensures
        r@ == fs@,
{
    let n = fs.len();
    let mut out: Vec<FieldDef> = Vec::new();
    let mut i: usize = 0;
    while i < n
        invariant
            0 <= i <= n,
            n == fs@.len(),
            out@ == fs@.subrange(0, i as int),
        decreases n - i,
    {
        let f = &fs[i];
        let copy = FieldDef {
            description: duplicate_opt_string(&f.description),
            name: f.name.clone(),
            rename: duplicate_opt_string(&f.rename),
            ty: f.ty.duplicate(),
            required: f.required,
        };
        proof {
            assert(copy == fs@[i as int]);
            assert(fs@.subrange(0, i + 1 as int) =~= fs@.subrange(0, i as int).push(
                fs@[i as int],
            ));
        }
        out.push(copy);
        i = i + 1;
    }
    proof {
        assert(fs@.subrange(0, n as int) =~= fs@);
    }
    out
}

} // verus!
