//! The inferred schema tree: an object with named properties, an array
//! with an optional item, or an annotated scalar. A node either stands
//! inline or points at a named component.

use vstd::prelude::*;
use crate::strutil::str_eq;

verus! {

broadcast use vstd::std_specs::vec::group_vec_axioms, vstd::seq::group_seq_axioms;

/// The format annotation a string schema can carry.
#[derive(Clone, Copy, PartialEq, Eq, Structural, Debug)]
pub enum StrFormat {
    Plain,
    Phone,
    Email,
    Decimal,
}

pub enum SchemaKind {
    /// Properties in insertion order. Requiredness is positional, not
    /// stored: response-schema inference marks every property required,
    /// a request-body schema none.
    Object(Vec<Property>),
    Array(Option<Box<SchemaOrRef>>),
    Text(StrFormat),
    Integer,
    Number,
    Boolean,
}

pub struct Schema {
    pub kind: SchemaKind,
    /// The `date` format annotation on a number schema.
    pub format_date: bool,
    /// The null-as-zero extension flag on a money-bearing field.
    pub null_as_zero: bool,
}

pub enum SchemaOrRef {
    Item(Schema),
    /// A reference to a named component of the registry, by component name.
    Ref(String),
}

pub struct Property {
    pub name: String,
    pub schema: SchemaOrRef,
}

// --- mathematical views ---

pub enum SchemaKindV {
    Object(Seq<PropertyV>),
    Array(Option<Box<SchemaOrRefV>>),
    Text(StrFormat),
    Integer,
    Number,
    Boolean,
}

pub struct SchemaV {
    pub kind: SchemaKindV,
    pub format_date: bool,
    pub null_as_zero: bool,
}

pub enum SchemaOrRefV {
    Item(SchemaV),
    Ref(Seq<char>),
}

pub struct PropertyV {
    pub name: Seq<char>,
    pub schema: SchemaOrRefV,
}

pub open spec fn schema_view(s: Schema) -> SchemaV
    decreases s,
{
    SchemaV { kind: kind_view(s.kind), format_date: s.format_date, null_as_zero: s.null_as_zero }
}

pub open spec fn props_view(props: Vec<Property>) -> Seq<PropertyV>
    decreases props,
{
    Seq::new(
        props@.len(),
        |i: int|
            if 0 <= i < props@.len() {
                prop_view(props@[i])
            } else {
                PropertyV { name: Seq::empty(), schema: SchemaOrRefV::Ref(Seq::empty()) }
            },
    )
}

pub open spec fn kind_view(k: SchemaKind) -> SchemaKindV
    decreases k,
{
    match k {
        SchemaKind::Object(props) => SchemaKindV::Object(props_view(props)),
        SchemaKind::Array(items) => SchemaKindV::Array(
            match items {
                Some(b) => Some(Box::new(sor_view(*b))),
                None => None,
            },
        ),
        SchemaKind::Text(f) => SchemaKindV::Text(f),
        SchemaKind::Integer => SchemaKindV::Integer,
        SchemaKind::Number => SchemaKindV::Number,
        SchemaKind::Boolean => SchemaKindV::Boolean,
    }
}

pub open spec fn sor_view(s: SchemaOrRef) -> SchemaOrRefV
    decreases s,
{
    match s {
        SchemaOrRef::Item(schema) => SchemaOrRefV::Item(schema_view(schema)),
        SchemaOrRef::Ref(name) => SchemaOrRefV::Ref(name@),
    }
}

pub open spec fn prop_view(p: Property) -> PropertyV
    decreases p,
{
    PropertyV { name: p.name@, schema: sor_view(p.schema) }
}

impl View for Schema {
    type V = SchemaV;

    open spec fn view(&self) -> SchemaV {
        schema_view(*self)
    }
}

impl View for SchemaOrRef {
    type V = SchemaOrRefV;

    open spec fn view(&self) -> SchemaOrRefV {
        sor_view(*self)
    }
}

impl View for Property {
    type V = PropertyV;

    open spec fn view(&self) -> PropertyV {
        prop_view(*self)
    }
}

// --- primitivity, as array-item inlining decides it ---

/// A schema that stays inline as an array item: an object with no
/// properties, an array without an item schema, or any scalar.
pub open spec fn spec_is_primitive(s: SchemaV) -> bool {
    match s.kind {
        SchemaKindV::Object(props) => props.len() == 0,
        SchemaKindV::Array(items) => items is None,
        _ => true,
    }
}

/// A schema worth extracting into a named component: an object with at
/// least one property.
pub open spec fn spec_use_reference(s: SchemaV) -> bool {
    match s.kind {
        SchemaKindV::Object(props) => props.len() > 0,
        _ => false,
    }
}

pub fn is_primitive(schema: &Schema) -> (r: bool)
    ensures
        r == spec_is_primitive(schema@),
{
    match &schema.kind {
        SchemaKind::Object(props) => props.len() == 0,
        SchemaKind::Array(items) => items.is_none(),
        _ => true,
    }
}

pub fn use_reference(schema: &Schema) -> (r: bool)
    ensures
        r == spec_use_reference(schema@),
{
    match &schema.kind {
        SchemaKind::Object(props) => props.len() > 0,
        _ => false,
    }
}

impl SchemaOrRef {
    /// The document-internal reference path of a reference node, e.g.
    /// `#/components/schemas/User`; an inline node has none.
    pub fn ref_path(&self) -> (r: Option<String>)
        ensures
            match *self {
                SchemaOrRef::Ref(name) => r matches Some(p) && p@ == "#/components/schemas/"@
                    + name@,
                SchemaOrRef::Item(_) => r is None,
            },
    {
        match self {
            SchemaOrRef::Ref(name) => {
                let mut p = String::new();
                p.append("#/components/schemas/");
                p.append(name.as_str());
                Some(p)
            },
            SchemaOrRef::Item(_) => None,
        }
    }
}

// --- structural equality on views, decided executably ---

impl Schema {
    /// Whether two schema trees have the same shape (the comparison the
    /// registry makes before it reports a name collision).
    pub fn deep_eq(&self, other: &Schema) -> (r: bool)
        ensures
            r == (self@ == other@),
        decreases *self,
    {
        if self.format_date != other.format_date || self.null_as_zero != other.null_as_zero {
            return false;
        }
        self.kind.deep_eq(&other.kind)
    }
}

impl SchemaKind {
    pub fn deep_eq(&self, other: &SchemaKind) -> (r: bool)
        ensures
            r == (kind_view(*self) == kind_view(*other)),
        decreases *self,
    {
        match (self, other) {
            (SchemaKind::Object(a), SchemaKind::Object(b)) => {
                if a.len() != b.len() {
                    proof {
                        assert(props_view(*a).len() != props_view(*b).len());
                    }
                    return false;
                }
                let ghost av = props_view(*a);
                let ghost bv = props_view(*b);
                let mut i: usize = 0;
                while i < a.len()
                    invariant
                        *self == SchemaKind::Object(*a),
                        *other == SchemaKind::Object(*b),
                        a@.len() == b@.len(),
                        i <= a@.len(),
                        av == props_view(*a),
                        bv == props_view(*b),
                        kind_view(*self) == SchemaKindV::Object(av),
                        kind_view(*other) == SchemaKindV::Object(bv),
                        forall|j: int| 0 <= j < i ==> av[j] == bv[j],
                    decreases a@.len() - i,
                {
                    let pa = &a[i];
                    let pb = &b[i];
                    proof {
                        assert(*self == SchemaKind::Object(*a));
                        assert(decreases_to!(*self => *a));
                        assert(decreases_to!(*a => a@[i as int]));
                        assert(decreases_to!(a@[i as int] => a@[i as int].schema));
                        assert(decreases_to!(*self => a@[i as int].schema));
                    }
                    if !str_eq(pa.name.as_str(), pb.name.as_str()) {
                        proof {
                            assert(av[i as int].name != bv[i as int].name);
                        }
                        return false;
                    }
                    if !pa.schema.deep_eq(&pb.schema) {
                        proof {
                            assert(av[i as int].schema != bv[i as int].schema);
                        }
                        return false;
                    }
                    proof {
                        assert(av[i as int] =~= bv[i as int]);
                    }
                    i = i + 1;
                }
                proof {
                    assert(av =~= bv);
                }
                true
            },
            (SchemaKind::Array(a), SchemaKind::Array(b)) => {
                match (a, b) {
                    (Some(x), Some(y)) => x.deep_eq(y),
                    (None, None) => true,
                    _ => false,
                }
            },
            (SchemaKind::Text(a), SchemaKind::Text(b)) => a == b,
            (SchemaKind::Integer, SchemaKind::Integer) => true,
            (SchemaKind::Number, SchemaKind::Number) => true,
            (SchemaKind::Boolean, SchemaKind::Boolean) => true,
            _ => false,
        }
    }
}

impl SchemaOrRef {
    pub fn deep_eq(&self, other: &SchemaOrRef) -> (r: bool)
        ensures
            r == (self@ == other@),
        decreases *self,
    {
        match (self, other) {
            (SchemaOrRef::Item(a), SchemaOrRef::Item(b)) => a.deep_eq(b),
            (SchemaOrRef::Ref(a), SchemaOrRef::Ref(b)) => str_eq(a.as_str(), b.as_str()),
            _ => false,
        }
    }
}

// --- deep copy ---

/// Deep copy of a schema tree (used for the collision record).
pub fn schema_clone(s: &Schema) -> (r: Schema)
    ensures
        r@ == s@,
    decreases *s,
{
    Schema { kind: kind_clone(&s.kind), format_date: s.format_date, null_as_zero: s.null_as_zero }
}

fn kind_clone(k: &SchemaKind) -> (r: SchemaKind)
    ensures
        kind_view(r) == kind_view(*k),
    decreases *k,
{
    match k {
        SchemaKind::Object(props) => {
            let mut out: Vec<Property> = Vec::new();
            let mut i: usize = 0;
            #[verifier::loop_isolation(false)]
            while i < props.len()
                invariant
                    *k == SchemaKind::Object(*props),
                    i <= props@.len(),
                    out@.len() == i,
                    forall|j: int| 0 <= j < i ==> prop_view(out@[j]) == prop_view(props@[j]),
                decreases props@.len() - i,
            {
                proof {
                    assert(*k == SchemaKind::Object(*props));
                    assert(decreases_to!(SchemaKind::Object(*props) => *props));
                    assert(decreases_to!(*k => *props));
                    assert(decreases_to!(*props => props@[i as int]));
                    assert(decreases_to!(props@[i as int] => props@[i as int].schema));
                }
                let p = &props[i];
                let ps = sor_clone(&p.schema);
                out.push(Property { name: p.name.clone(), schema: ps });
                i = i + 1;
            }
            proof {
                assert(props_view(out) =~= props_view(*props));
            }
            SchemaKind::Object(out)
        },
        SchemaKind::Array(items) => {
            match items {
                Some(b) => SchemaKind::Array(Some(Box::new(sor_clone(b)))),
                None => SchemaKind::Array(None),
            }
        },
        SchemaKind::Text(f) => SchemaKind::Text(*f),
        SchemaKind::Integer => SchemaKind::Integer,
        SchemaKind::Number => SchemaKind::Number,
        SchemaKind::Boolean => SchemaKind::Boolean,
    }
}

fn sor_clone(s: &SchemaOrRef) -> (r: SchemaOrRef)
    ensures
        r@ == s@,
    decreases *s,
{
    match s {
        SchemaOrRef::Item(schema) => SchemaOrRef::Item(schema_clone(schema)),
        SchemaOrRef::Ref(name) => SchemaOrRef::Ref(name.clone()),
    }
}

} // verus!
