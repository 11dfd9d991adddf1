//! The component registry: an ordered name-to-schema map with
//! first-writer-wins insertion. A second insert under an existing name
//! never overwrites; a differing shape is recorded as a collision.

use vstd::prelude::*;
use crate::openapi::schema::{
    Schema, SchemaV, SchemaOrRefV, SchemaKindV, schema_view, schema_clone,
};
use crate::strutil::str_eq;

verus! {

broadcast use vstd::std_specs::vec::group_vec_axioms, vstd::seq::group_seq_axioms;

/// A recorded name collision: the shape that stays and the shape that was
/// turned away, kept whole for human review.
pub struct Collision {
    pub name: String,
    pub existing: Schema,
    pub attempted: Schema,
}

/// The registry of named schema components for one generation run.
pub struct Components {
    pub schemas: Vec<(String, Schema)>,
    pub collisions: Vec<Collision>,
}

// --- spec-level model ---

pub type Entries = Seq<(Seq<char>, SchemaV)>;

/// First entry under `name`, scanning from the front.
pub open spec fn spec_find(entries: Entries, name: Seq<char>) -> Option<SchemaV>
    decreases entries.len(),
{
    if entries.len() == 0 {
        None
    } else if entries[0].0 == name {
        Some(entries[0].1)
    } else {
        spec_find(entries.drop_first(), name)
    }
}

pub open spec fn contains_name(entries: Entries, name: Seq<char>) -> bool {
    spec_find(entries, name) is Some
}

/// What one registration leaves in the registry: an occupied name keeps its
/// first shape, a fresh name is appended.
pub open spec fn spec_insert_entries(entries: Entries, name: Seq<char>, schema: SchemaV) -> Entries {
    if contains_name(entries, name) {
        entries
    } else {
        entries.push((name, schema))
    }
}

/// Whether one registration collides: the name is occupied by a different
/// shape. Re-registering an identical shape is no collision.
pub open spec fn spec_insert_collides(entries: Entries, name: Seq<char>, schema: SchemaV) -> bool {
    match spec_find(entries, name) {
        Some(existing) => existing != schema,
        None => false,
    }
}

/// The set of registered component names.
pub open spec fn names_of(entries: Entries) -> Set<Seq<char>> {
    Set::new(|n: Seq<char>| contains_name(entries, n))
}

/// Every reference inside `s` points at a name in `names`.
pub open spec fn schema_refs_valid(s: SchemaV, names: Set<Seq<char>>) -> bool
    decreases s,
{
    match s.kind {
        SchemaKindV::Object(props) => forall|i: int|
            0 <= i < props.len() ==> sor_refs_valid(#[trigger] props[i].schema, names),
        SchemaKindV::Array(items) => match items {
            Some(b) => sor_refs_valid(*b, names),
            None => true,
        },
        _ => true,
    }
}

pub open spec fn sor_refs_valid(s: SchemaOrRefV, names: Set<Seq<char>>) -> bool
    decreases s,
{
    match s {
        SchemaOrRefV::Item(schema) => schema_refs_valid(schema, names),
        SchemaOrRefV::Ref(name) => names.contains(name),
    }
}

impl Components {
    pub open spec fn entries(self) -> Entries {
        Seq::new(
            self.schemas@.len(),
            |i: int| (self.schemas@[i].0@, schema_view(self.schemas@[i].1)),
        )
    }

    pub open spec fn names(self) -> Set<Seq<char>> {
        names_of(self.entries())
    }

    /// Names are unique and every stored schema's references resolve within
    /// the registry: the document invariant that serialization relies on.
    pub open spec fn wf(self) -> bool {
        &&& forall|i: int, j: int|
            0 <= i < j < self.entries().len() ==> self.entries()[i].0 != self.entries()[j].0
        &&& forall|i: int|
            0 <= i < self.entries().len() ==> schema_refs_valid(
                #[trigger] self.entries()[i].1,
                self.names(),
            )
    }

    pub fn new() -> (r: Components)
        ensures
            r.entries() == Seq::<(Seq<char>, SchemaV)>::empty(),
            r.collisions@ == Seq::<Collision>::empty(),
            r.wf(),
    {
        let r = Components { schemas: Vec::new(), collisions: Vec::new() };
        proof {
            assert(r.entries() =~= Seq::<(Seq<char>, SchemaV)>::empty());
            reveal_with_fuel(spec_find, 1);
        }
        r
    }

    fn find_index(&self, name: &str) -> (r: Option<usize>)
        ensures
            match r {
                Some(i) => {
                    &&& i < self.entries().len()
                    &&& self.entries()[i as int].0 == name@
                    &&& spec_find(self.entries(), name@) == Some(self.entries()[i as int].1)
                },
                None => spec_find(self.entries(), name@) is None,
            },
    {
        let mut i: usize = 0;
        while i < self.schemas.len()
            invariant
                i <= self.schemas@.len(),
                forall|j: int| 0 <= j < i ==> self.entries()[j].0 != name@,
            decreases self.schemas@.len() - i,
        {
            if str_eq(self.schemas[i].0.as_str(), name) {
                proof {
                    lemma_spec_find_at(self.entries(), name@, i as int);
                }
                return Some(i);
            }
            i = i + 1;
        }
        proof {
            lemma_spec_find_none(self.entries(), name@);
        }
        None
    }

    /// Registers `schema` under `name` unless the name is taken: the
    /// first-seen shape always stays. Returns whether a collision was
    /// recorded, which happens exactly when the name was taken by a
    /// different shape.
    pub fn insert_if_absent(&mut self, name: String, schema: Schema) -> (collided: bool)
        ensures
            final(self).entries() == spec_insert_entries(old(self).entries(), name@, schema@),
            collided == spec_insert_collides(old(self).entries(), name@, schema@),
            collided ==> {
                &&& final(self).collisions@.len() == old(self).collisions@.len() + 1
                &&& final(self).collisions@.drop_last() == old(self).collisions@
                &&& final(self).collisions@.last().name@ == name@
                &&& spec_find(old(self).entries(), name@) == Some(
                    final(self).collisions@.last().existing@,
                )
                &&& final(self).collisions@.last().attempted@ == schema@
            },
            !collided ==> final(self).collisions@ == old(self).collisions@,
            contains_name(final(self).entries(), name@),
            old(self).wf() && schema_refs_valid(schema@, old(self).names().insert(name@))
                ==> final(self).wf(),
    {
        let found = self.find_index(name.as_str());
        match found {
            Some(i) => {
                let same = self.schemas[i].1.deep_eq(&schema);
                proof {
                    assert(self.entries() =~= spec_insert_entries(
                        old(self).entries(),
                        name@,
                        schema@,
                    ));
                }
                if same {
                    false
                } else {
                    let existing = schema_clone(&self.schemas[i].1);
                    let ghost prev = self.collisions@;
                    self.collisions.push(Collision { name, existing, attempted: schema });
                    proof {
                        assert(self.collisions@.drop_last() =~= prev);
                    }
                    true
                }
            },
            None => {
                self.schemas.push((name, schema));
                proof {
                    assert(self.entries() =~= old(self).entries().push((name@, schema@)));
                    lemma_find_push(old(self).entries(), name@, schema@);
                    if old(self).wf() && schema_refs_valid(schema@, old(self).names().insert(name@)) {
                        lemma_insert_preserves_wf(*old(self), *self, name@, schema@);
                    }
                }
                false
            },
        }
    }

}

/// A scan that saw no earlier match and a match at `i` found the first one.
proof fn lemma_spec_find_at(entries: Entries, name: Seq<char>, i: int)
    requires
        0 <= i < entries.len(),
        entries[i].0 == name,
        forall|j: int| 0 <= j < i ==> entries[j].0 != name,
    ensures
        spec_find(entries, name) == Some(entries[i].1),
    decreases i,
{
    if i == 0 {
    } else {
        lemma_spec_find_at(entries.drop_first(), name, i - 1);
    }
}

proof fn lemma_spec_find_none(entries: Entries, name: Seq<char>)
    requires
        forall|j: int| 0 <= j < entries.len() ==> entries[j].0 != name,
    ensures
        spec_find(entries, name) is None,
    decreases entries.len(),
{
    if entries.len() > 0 {
        lemma_spec_find_none(entries.drop_first(), name);
    }
}

/// Finding in a registry extended by one fresh entry.
proof fn lemma_find_push(entries: Entries, name: Seq<char>, schema: SchemaV)
    ensures
        forall|n: Seq<char>| n != name ==> spec_find(entries.push((name, schema)), n)
            == spec_find(entries, n),
        spec_find(entries, name) is None ==> spec_find(entries.push((name, schema)), name)
            == Some(schema),
        spec_find(entries, name) matches Some(s) ==> spec_find(entries.push((name, schema)), name)
            == Some(s),
    decreases entries.len(),
{
    let p = entries.push((name, schema));
    if entries.len() == 0 {
        assert(p.drop_first() =~= entries);
        assert forall|n: Seq<char>| n != name implies spec_find(p, n) == spec_find(
            entries,
            n,
        ) by {
            assert(p[0].0 == name);
            assert(spec_find(p.drop_first(), n) is None);
        }
    } else {
        lemma_find_push(entries.drop_first(), name, schema);
        assert(p.drop_first() =~= entries.drop_first().push((name, schema)));
        assert(p[0] == entries[0]);
        assert forall|n: Seq<char>| n != name implies spec_find(p, n) == spec_find(
            entries,
            n,
        ) by {
            if entries[0].0 != n {
                assert(spec_find(p, n) == spec_find(p.drop_first(), n));
                assert(spec_find(entries, n) == spec_find(entries.drop_first(), n));
            }
        }
    }
}

proof fn lemma_insert_preserves_wf(
    old_c: Components,
    new_c: Components,
    name: Seq<char>,
    schema: SchemaV,
)
    requires
        old_c.wf(),
        !contains_name(old_c.entries(), name),
        schema_refs_valid(schema, old_c.names().insert(name)),
        new_c.entries() == old_c.entries().push((name, schema)),
    ensures
        new_c.wf(),
{
    lemma_find_push(old_c.entries(), name, schema);
    assert forall|n: Seq<char>| old_c.names().insert(name).contains(n)
        implies new_c.names().contains(n) by {
        if n == name {
            assert(contains_name(new_c.entries(), name));
        } else {
            assert(spec_find(new_c.entries(), n) == spec_find(old_c.entries(), n));
        }
    };
    assert(new_c.names() =~= old_c.names().insert(name)) by {
        assert forall|n: Seq<char>| new_c.names().contains(n)
            implies old_c.names().insert(name).contains(n) by {
            if n != name {
                assert(spec_find(new_c.entries(), n) == spec_find(old_c.entries(), n));
            }
        };
    };
    assert forall|i: int, j: int| 0 <= i < j < new_c.entries().len()
        implies new_c.entries()[i].0 != new_c.entries()[j].0 by {
        if j == new_c.entries().len() - 1 {
            if new_c.entries()[i].0 == name {
                lemma_spec_find_some(old_c.entries(), i);
            }
        }
    };
    assert forall|i: int| 0 <= i < new_c.entries().len()
        implies schema_refs_valid(#[trigger] new_c.entries()[i].1, new_c.names()) by {
        if i < new_c.entries().len() - 1 {
            lemma_refs_valid_monotone(old_c.entries()[i].1, old_c.names(), new_c.names());
        } else {
            lemma_refs_valid_monotone(schema, old_c.names().insert(name), new_c.names());
        }
    };
}

/// An entry's name is always found (as some entry's shape).
proof fn lemma_spec_find_some(entries: Entries, i: int)
    requires
        0 <= i < entries.len(),
    ensures
        contains_name(entries, entries[i].0),
    decreases i,
{
    if i > 0 && entries[0].0 != entries[i].0 {
        lemma_spec_find_some(entries.drop_first(), i - 1);
    }
}

/// Law: registering the same component name twice never changes the
/// stored shapes — the first writer wins. Re-registering an identical
/// shape raises no collision; a differing shape raises one, and the
/// registry still holds the first shape.
pub proof fn lemma_register_first_writer_wins(
    entries: Entries,
    name: Seq<char>,
    schema: SchemaV,
    schema2: SchemaV,
)
    requires
        spec_find(entries, name) is None,
    ensures
        ({
            let once = spec_insert_entries(entries, name, schema);
            &&& spec_insert_entries(once, name, schema2) == once
            &&& spec_find(once, name) == Some(schema)
            &&& !spec_insert_collides(once, name, schema)
            &&& schema2 != schema ==> spec_insert_collides(once, name, schema2)
        }),
{
    lemma_find_push(entries, name, schema);
}

/// A sequence extends to one it is a prefix of.
pub proof fn lemma_prefix_trans<A>(a: Seq<A>, b: Seq<A>, c: Seq<A>)
    requires
        a.is_prefix_of(b),
        b.is_prefix_of(c),
    ensures
        a.is_prefix_of(c),
{
    assert(a =~= c.subrange(0, a.len() as int));
}

pub proof fn lemma_push_prefix<A>(a: Seq<A>, x: A)
    ensures
        a.is_prefix_of(a.push(x)),
{
    assert(a =~= a.push(x).subrange(0, a.len() as int));
}

/// One registration extends the registry: the old entries stay a prefix.
pub proof fn lemma_insert_prefix(entries: Entries, name: Seq<char>, schema: SchemaV)
    ensures
        entries.is_prefix_of(spec_insert_entries(entries, name, schema)),
{
    if contains_name(entries, name) {
        assert(entries =~= entries.subrange(0, entries.len() as int));
    } else {
        lemma_push_prefix(entries, (name, schema));
    }
}

/// A name found in a prefix is found in the whole.
pub proof fn lemma_find_prefix(e1: Entries, e2: Entries, n: Seq<char>)
    requires
        e1.is_prefix_of(e2),
        spec_find(e1, n) is Some,
    ensures
        spec_find(e2, n) is Some,
    decreases e1.len(),
{
    assert(e1[0] == e2[0]);
    if e1[0].0 != n {
        assert(e1.drop_first().is_prefix_of(e2.drop_first())) by {
            assert(e1.drop_first() =~= e2.drop_first().subrange(0, e1.len() - 1));
        }
        lemma_find_prefix(e1.drop_first(), e2.drop_first(), n);
    }
}

/// Growing the registry grows its name set.
pub proof fn lemma_names_prefix_subset(e1: Entries, e2: Entries)
    requires
        e1.is_prefix_of(e2),
    ensures
        names_of(e1).subset_of(names_of(e2)),
{
    assert forall|n: Seq<char>| names_of(e1).contains(n) implies names_of(e2).contains(n) by {
        lemma_find_prefix(e1, e2, n);
    }
}

/// Reference validity survives growing the name set.
pub proof fn lemma_refs_valid_monotone(s: SchemaV, small: Set<Seq<char>>, large: Set<Seq<char>>)
    requires
        schema_refs_valid(s, small),
        small.subset_of(large),
    ensures
        schema_refs_valid(s, large),
    decreases s,
{
    match s.kind {
        SchemaKindV::Object(props) => {
            assert forall|i: int| 0 <= i < props.len()
                implies sor_refs_valid(#[trigger] props[i].schema, large) by {
                lemma_sor_refs_valid_monotone(props[i].schema, small, large);
            };
        },
        SchemaKindV::Array(items) => {
            match items {
                Some(b) => lemma_sor_refs_valid_monotone(*b, small, large),
                None => {},
            }
        },
        _ => {},
    }
}

pub proof fn lemma_sor_refs_valid_monotone(s: SchemaOrRefV, small: Set<Seq<char>>, large: Set<Seq<char>>)
    requires
        sor_refs_valid(s, small),
        small.subset_of(large),
    ensures
        sor_refs_valid(s, large),
    decreases s,
{
    match s {
        SchemaOrRefV::Item(schema) => lemma_refs_valid_monotone(schema, small, large),
        SchemaOrRefV::Ref(_) => {},
    }
}

} // verus!
