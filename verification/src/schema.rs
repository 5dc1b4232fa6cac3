//! A model of the JSON-Schema documents the wire types are generated
//! from: the schema shapes, and the mapping from simple shapes to type
//! references.
//!
//! Only the structure and the pure queries live here; reading a schema
//! document from disk and rendering source text are build-time work
//! that stays outside the library.

use vstd::prelude::*;
use crate::type_registry::TypeRef;

verus! {

/// A whole schema document: its named definitions, in document order.
pub struct RootSchema {
    pub definitions: Vec<(String, Schema)>,
}

/// Description text shared by every schema shape.
#[derive(Debug)]
pub struct SharedSchema {
    pub description: Option<String>,
}

/// A schema with no constraints at all.
#[derive(Debug)]
pub struct EmptySchema {
    pub shared: SharedSchema,
}

/// A schema whose `type` names one of several primitive kinds.
#[derive(Debug)]
pub struct TypeEnumSchema {
    pub shared: SharedSchema,
    pub types: Vec<EnumType>,
}

/// The primitive kinds a `type` list may name.
#[derive(Debug, Clone, Copy, PartialEq, Eq, Structural)]
pub enum EnumType {
    Str,
    Number,
    Integer,
}

/// A schema that is any of several alternatives.
pub struct AnyOfSchema {
    pub shared: SharedSchema,
    pub any_of: Vec<Schema>,
}

/// A reference to a named definition.
#[derive(Debug)]
pub struct RefSchema {
    pub shared: SharedSchema,
    /// A reference path such as `#/definitions/Name`.
    pub reference: String,
}

/// An object schema: named properties, required names, and the policy
/// for everything else.
pub struct ObjectSchema {
    pub shared: SharedSchema,
    pub properties: Vec<(String, Schema)>,
    pub required: Vec<String>,
    pub additional_properties: AdditionalProperties,
}

/// What an object allows beyond its named properties.
pub enum AdditionalProperties {
    Bool(bool),
    Schema(Box<Schema>),
}

impl Default for AdditionalProperties {
    /// Anything is allowed unless the document says otherwise.
    fn default() -> (r: Self)
        ensures
            r is Bool && r->Bool_0 == true,
    {
        AdditionalProperties::Bool(true)
    }
}

/// An array schema.
pub struct ArraySchema {
    pub shared: SharedSchema,
    pub items: Box<Schema>,
}

/// A floating-point number schema.  Its numeric bounds are not modelled
/// here; nothing in the library reads them.
#[derive(Debug)]
pub struct NumberSchema {
    pub shared: SharedSchema,
}

/// An integer schema with optional bounds.
#[derive(Debug)]
pub struct IntegerSchema {
    pub shared: SharedSchema,
    pub maximum: Option<i32>,
    pub minimum: Option<i32>,
}

/// A string schema: a fixed constant, a closed set of values, a
/// formatted string, or plain text.
#[derive(Debug)]
pub enum StringSchema {
    Const { shared: SharedSchema, constant: String },
    Enum { shared: SharedSchema, options: Vec<String> },
    Format { shared: SharedSchema, format: String },
    Plain { shared: SharedSchema },
}

/// A closed set of string values.
#[derive(Debug)]
pub struct EnumSchema {
    pub shared: SharedSchema,
    pub options: Vec<String>,
}

/// A boolean schema.
#[derive(Debug)]
pub struct BooleanSchema {
    pub shared: SharedSchema,
}

/// A null schema.
#[derive(Debug)]
pub struct NullSchema {
    pub shared: SharedSchema,
}

/// A schema shape tagged by its `type` keyword.
pub enum TypeTaggedSchema {
    Object(ObjectSchema),
    Array(ArraySchema),
    Number(NumberSchema),
    Integer(IntegerSchema),
    Str(StringSchema),
    Boolean(BooleanSchema),
}

/// Any schema shape.
pub enum Schema {
    TypeTagged(TypeTaggedSchema),
    TypeEnum(TypeEnumSchema),
    AnyOf(AnyOfSchema),
    Ref(RefSchema),
    Enum(EnumSchema),
    Empty(EmptySchema),
}

impl EnumType {
    /// The type a primitive kind maps to.
    pub open spec fn spec_type_ref(self) -> TypeRef {
        match self {
            EnumType::Str => TypeRef::Str,
            EnumType::Number => TypeRef::Number,
            EnumType::Integer => TypeRef::Integer,
        }
    }

    /// The type a primitive kind maps to.
    pub fn type_ref(&self) -> (r: TypeRef)
        ensures
            r == self.spec_type_ref(),
    {
        match self {
            EnumType::Str => TypeRef::Str,
            EnumType::Number => TypeRef::Number,
            EnumType::Integer => TypeRef::Integer,
        }
    }
}

impl StringSchema {
    /// The type a string schema maps to, if a direct one exists: a
    /// constant maps to its constant string type, the `byte` format to
    /// bytes, any other format and plain text to strings, and a closed
    /// set of values to nothing.
    pub open spec fn spec_type_ref(self) -> Option<TypeRef> {
        match self {
            StringSchema::Const { constant, .. } => Some(TypeRef::ConstString(constant)),
            StringSchema::Enum { .. } => None,
            StringSchema::Format { format, .. } => if format@ == "byte"@ {
                Some(TypeRef::Bytes)
            } else {
                Some(TypeRef::Str)
            },
            StringSchema::Plain { .. } => Some(TypeRef::Str),
        }
    }

    /// The type a string schema maps to, if a direct one exists.
    pub fn type_ref(&self) -> (r: Option<TypeRef>)
        ensures
            r == self.spec_type_ref(),
    {
        match self {
            StringSchema::Const { constant, .. } => Some(TypeRef::ConstString(constant.clone())),
            StringSchema::Enum { .. } => None,
            StringSchema::Format { format, .. } => {
                if *format == String::from_str("byte") {
                    Some(TypeRef::Bytes)
                } else {
                    Some(TypeRef::Str)
                }
            },
            StringSchema::Plain { .. } => Some(TypeRef::Str),
        }
    }

    /// The description of a string schema.
    pub open spec fn spec_description(self) -> Option<String> {
        match self {
            StringSchema::Const { shared, .. } => shared.description,
            StringSchema::Enum { shared, .. } => shared.description,
            StringSchema::Format { shared, .. } => shared.description,
            StringSchema::Plain { shared } => shared.description,
        }
    }

    /// The description of a string schema.
    pub fn get_description(&self) -> (r: Option<String>)
        ensures
            r == self.spec_description(),
    {
        match self {
            StringSchema::Const { shared, .. } => clone_description(&shared.description),
            StringSchema::Enum { shared, .. } => clone_description(&shared.description),
            StringSchema::Format { shared, .. } => clone_description(&shared.description),
            StringSchema::Plain { shared } => clone_description(&shared.description),
        }
    }
}

/// A copy of an optional description.
fn clone_description(d: &Option<String>) -> (r: Option<String>)
    ensures
        r == *d,
{
    match d {
        Some(s) => Some(s.clone()),
        None => None,
    }
}

impl Schema {
    /// The description of a schema, whatever its shape.
    pub open spec fn spec_description(self) -> Option<String> {
        match self {
            Schema::TypeTagged(TypeTaggedSchema::Object(o)) => o.shared.description,
            Schema::TypeTagged(TypeTaggedSchema::Array(a)) => a.shared.description,
            Schema::TypeTagged(TypeTaggedSchema::Number(n)) => n.shared.description,
            Schema::TypeTagged(TypeTaggedSchema::Integer(i)) => i.shared.description,
            Schema::TypeTagged(TypeTaggedSchema::Str(s)) => s.spec_description(),
            Schema::TypeTagged(TypeTaggedSchema::Boolean(b)) => b.shared.description,
            Schema::TypeEnum(t) => t.shared.description,
            Schema::AnyOf(a) => a.shared.description,
            Schema::Ref(r) => r.shared.description,
            Schema::Enum(e) => e.shared.description,
            Schema::Empty(e) => e.shared.description,
        }
    }

    /// The description of a schema, whatever its shape.
    pub fn get_description(&self) -> (r: Option<String>)
        ensures
            r == self.spec_description(),
    {
        match self {
            Schema::TypeTagged(TypeTaggedSchema::Object(o)) => clone_description(
                &o.shared.description,
            ),
            Schema::TypeTagged(TypeTaggedSchema::Array(a)) => clone_description(
                &a.shared.description,
            ),
            Schema::TypeTagged(TypeTaggedSchema::Number(n)) => clone_description(
                &n.shared.description,
            ),
            Schema::TypeTagged(TypeTaggedSchema::Integer(i)) => clone_description(
                &i.shared.description,
            ),
            Schema::TypeTagged(TypeTaggedSchema::Str(s)) => s.get_description(),
            Schema::TypeTagged(TypeTaggedSchema::Boolean(b)) => clone_description(
                &b.shared.description,
            ),
            Schema::TypeEnum(t) => clone_description(&t.shared.description),
            Schema::AnyOf(a) => clone_description(&a.shared.description),
            Schema::Ref(r) => clone_description(&r.shared.description),
            Schema::Enum(e) => clone_description(&e.shared.description),
            Schema::Empty(e) => clone_description(&e.shared.description),
        }
    }
}

/// The segment after the last `/` of a reference path; the whole path
/// when it has no `/`.
pub open spec fn spec_ref_name(path: Seq<char>) -> Seq<char>
    decreases path.len(),
{
    if path.len() == 0 {
        path
    } else if path.last() == '/' {
        Seq::empty()
    } else {
        spec_ref_name(path.drop_last()).push(path.last())
    }
}

/// Extract the definition name from a reference path such as
/// `#/definitions/Name`.
#[verifier::loop_isolation(false)]
pub fn extract_ref_name(ref_path: &str) -> (r: String)
    ensures
        r@ == spec_ref_name(ref_path@),
{
    let cs = crate::json::str_to_chars(ref_path);
    let n = cs.len();
    let mut start: usize = n;
    while start > 0
        invariant
            0 <= start <= n,
            n == cs@.len(),
            forall|j: int| start <= j < n ==> cs@[j] != '/',
        decreases start,
    {
        if cs[start - 1] == '/' {
            break ;
        }
        start = start - 1;
    }
    proof {
        lemma_ref_name_ends(cs@, start as int);
    }
    let mut out: Vec<char> = Vec::new();
    let mut i = start;
    while i < n
        invariant
            start <= i <= n,
            n == cs@.len(),
            out@ == cs@.subrange(start as int, i as int),
        decreases n - i,
    {
        out.push(cs[i]);
        proof {
            assert(cs@.subrange(start as int, i + 1 as int) =~= cs@.subrange(
                start as int,
                i as int,
            ).push(cs@[i as int]));
        }
        i = i + 1;
    }
    crate::json::chars_to_string(&out)
}

/// Peeling non-slash characters off the end accumulates the suffix.
pub proof fn lemma_ref_name_ends(path: Seq<char>, start: int)
    requires
        0 <= start <= path.len(),
        forall|j: int| start <= j < path.len() ==> path[j] != '/',
        start > 0 ==> path[start - 1] == '/',
    ensures
        spec_ref_name(path) == path.subrange(start, path.len() as int),
    decreases path.len(),
{
    if path.len() == 0 {
        assert(path.subrange(0, 0) =~= path);
    } else if start == path.len() {
        assert(path.last() == '/');
        assert(path.subrange(start, path.len() as int) =~= Seq::<char>::empty());
    } else {
        assert(path.last() != '/');
        let shorter = path.drop_last();
        assert(forall|j: int| start <= j < shorter.len() ==> #[trigger] shorter[j] == path[j]);
        assert(start > 0 ==> shorter[start - 1] == path[start - 1]);
        lemma_ref_name_ends(shorter, start);
        assert(spec_ref_name(path) == spec_ref_name(shorter).push(path.last()));
        assert(shorter.subrange(start, shorter.len() as int).push(path.last()) =~= path.subrange(
            start,
            path.len() as int,
        ));
    }
}

} // verus!
