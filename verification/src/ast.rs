//! The validated schema handed to the compilers: entities with fields and
//! relations. Entities, fields and relations are kept in insertion order;
//! adding an item whose name is already present replaces the earlier one,
//! so names stay unique.

use vstd::prelude::*;
use crate::strutil::str_eq;

verus! {

/// The type of a schema field.
#[derive(Debug, PartialEq)]
pub enum FieldType {
    UUID,
    String,
    Int,
    Decimal,
    Bool,
    Timestamp,
    Array(Box<FieldType>),
    Vector(u32),
}

impl Clone for FieldType {
    /// An equal copy of the field type.
    fn clone(&self) -> (r: Self)
        ensures
            r == *self,
        decreases self,
    {
        match self {
            FieldType::UUID => FieldType::UUID,
            FieldType::String => FieldType::String,
            FieldType::Int => FieldType::Int,
            FieldType::Decimal => FieldType::Decimal,
            FieldType::Bool => FieldType::Bool,
            FieldType::Timestamp => FieldType::Timestamp,
            FieldType::Array(inner) => FieldType::Array(Box::new((**inner).clone())),
            FieldType::Vector(d) => FieldType::Vector(*d),
        }
    }
}

/// A declared default for a field.
#[derive(Debug, Clone, PartialEq)]
pub enum DefaultValue {
    Now,
    UUIDv4,
    Literal(String),
}

/// A storage-backend annotation on a field; carried as metadata only, not
/// interpreted by this compiler.
#[derive(Debug, Clone, PartialEq)]
pub enum BackendAnnotation {
    Cache,
    OLAP,
    Vector,
}

/// A field of an entity.
#[derive(Debug, Clone, PartialEq)]
pub struct Field {
    pub name: String,
    pub field_type: FieldType,
    pub nullable: bool,
    pub unique: bool,
    pub primary_key: bool,
    pub default: Option<DefaultValue>,
    pub backend: Option<BackendAnnotation>,
}

/// The kind of an association between two entities.
#[derive(Debug, Clone, PartialEq)]
pub enum RelationKind {
    HasOne,
    HasMany,
    BelongsTo,
    ManyToMany,
}

/// A named association from one entity to another.
#[derive(Debug, Clone, PartialEq)]
pub struct Relation {
    pub name: String,
    pub kind: RelationKind,
    pub target_entity: String,
    pub foreign_key: Option<String>,
    /// Join table for many-to-many relations.
    pub through: Option<String>,
}

/// A named record type: fields and relations, each addressable by name.
#[derive(Debug, Clone, PartialEq)]
pub struct Entity {
    pub name: String,
    pub fields: Vec<Field>,
    pub relations: Vec<Relation>,
}

/// A schema: the entities, addressable by name.
#[derive(Debug, Clone, PartialEq)]
pub struct Schema {
    pub entities: Vec<Entity>,
}

/// The first entity in `s` named `name`, if any.
pub open spec fn spec_find_entity(s: Seq<Entity>, name: Seq<char>) -> Option<Entity>
    decreases s.len(),
{
    if s.len() == 0 {
        None
    } else if s[0].name@ == name {
        Some(s[0])
    } else {
        spec_find_entity(s.drop_first(), name)
    }
}

/// The first field in `s` named `name`, if any.
pub open spec fn spec_find_field(s: Seq<Field>, name: Seq<char>) -> Option<Field>
    decreases s.len(),
{
    if s.len() == 0 {
        None
    } else if s[0].name@ == name {
        Some(s[0])
    } else {
        spec_find_field(s.drop_first(), name)
    }
}

/// The first relation in `s` named `name`, if any.
pub open spec fn spec_find_relation(s: Seq<Relation>, name: Seq<char>) -> Option<Relation>
    decreases s.len(),
{
    if s.len() == 0 {
        None
    } else if s[0].name@ == name {
        Some(s[0])
    } else {
        spec_find_relation(s.drop_first(), name)
    }
}

/// `s` with `e` in place of its first entity of the same name, or appended
/// when no entity of that name exists.
pub open spec fn spec_upsert_entity(s: Seq<Entity>, e: Entity) -> Seq<Entity>
    decreases s.len(),
{
    if s.len() == 0 {
        seq![e]
    } else if s[0].name@ == e.name@ {
        seq![e] + s.drop_first()
    } else {
        seq![s[0]] + spec_upsert_entity(s.drop_first(), e)
    }
}

/// `s` with `f` in place of its first field of the same name, or appended.
pub open spec fn spec_upsert_field(s: Seq<Field>, f: Field) -> Seq<Field>
    decreases s.len(),
{
    if s.len() == 0 {
        seq![f]
    } else if s[0].name@ == f.name@ {
        seq![f] + s.drop_first()
    } else {
        seq![s[0]] + spec_upsert_field(s.drop_first(), f)
    }
}

/// `s` with `r` in place of its first relation of the same name, or
/// appended.
pub open spec fn spec_upsert_relation(s: Seq<Relation>, r: Relation) -> Seq<Relation>
    decreases s.len(),
{
    if s.len() == 0 {
        seq![r]
    } else if s[0].name@ == r.name@ {
        seq![r] + s.drop_first()
    } else {
        seq![s[0]] + spec_upsert_relation(s.drop_first(), r)
    }
}

impl Schema {
    /// An empty schema.
    pub fn new() -> (r: Self)
        ensures
            r.entities@ == Seq::<Entity>::empty(),
    {
        Schema { entities: Vec::new() }
    }

    /// Add an entity, replacing any earlier entity of the same name.
    pub fn add_entity(&mut self, entity: Entity)
        ensures
            final(self).entities@ == spec_upsert_entity(old(self).entities@, entity),
    {
        let ghost orig = self.entities@;
        let mut i: usize = 0;
        while i < self.entities.len()
            invariant
                i <= self.entities@.len(),
                self.entities@ == orig,
                orig == old(self).entities@,
                forall|j: int| 0 <= j < i ==> orig[j].name@ != entity.name@,
            decreases self.entities@.len() - i,
        {
            if str_eq(self.entities[i].name.as_str(), entity.name.as_str()) {
                self.entities.set(i, entity);
                proof {
                    lemma_upsert_entity_at(orig, entity, i as int);
                }
                return ;
            }
            i = i + 1;
        }
        self.entities.push(entity);
        proof {
            lemma_upsert_entity_missing(orig, entity);
        }
    }

    /// Look up an entity by name.
    pub fn get_entity(&self, name: &str) -> (r: Option<&Entity>)
        ensures
            (match r {
                Some(e) => spec_find_entity(self.entities@, name@) == Some(*e),
                None => spec_find_entity(self.entities@, name@) is None,
            }),
    {
        proof {
            assert(self.entities@.skip(0) =~= self.entities@);
        }
        let mut i: usize = 0;
        while i < self.entities.len()
            invariant
                i <= self.entities@.len(),
                forall|j: int| 0 <= j < i ==> self.entities@[j].name@ != name@,
                spec_find_entity(self.entities@, name@) == spec_find_entity(
                    self.entities@.skip(i as int),
                    name@,
                ),
            decreases self.entities@.len() - i,
        {
            if str_eq(self.entities[i].name.as_str(), name) {
                proof {
                    assert(self.entities@.skip(i as int)[0] == self.entities@[i as int]);
                }
                return Some(&self.entities[i]);
            }
            proof {
                assert(self.entities@.skip(i as int).drop_first() =~= self.entities@.skip(
                    i as int + 1,
                ));
                assert(self.entities@.skip(i as int)[0] == self.entities@[i as int]);
            }
            i = i + 1;
        }
        proof {
            assert(self.entities@.skip(i as int).len() == 0);
        }
        None
    }
}

/// Replacing position `i`, the first index bearing the new item's name,
/// is the upsert of that item.
proof fn lemma_upsert_entity_at(s: Seq<Entity>, e: Entity, i: int)
    requires
        0 <= i < s.len(),
        s[i].name@ == e.name@,
        forall|j: int| 0 <= j < i ==> s[j].name@ != e.name@,
    ensures
        spec_upsert_entity(s, e) == s.update(i, e),
    decreases i,
{
    if i == 0 {
        assert(spec_upsert_entity(s, e) =~= s.update(0, e));
    } else {
        assert(forall|j: int| 0 <= j < i - 1 ==> s.drop_first()[j].name@ != e.name@);
        lemma_upsert_entity_at(s.drop_first(), e, i - 1);
        assert(spec_upsert_entity(s, e) =~= s.update(i, e));
    }
}

/// When no item bears the new item's name, the upsert appends it.
proof fn lemma_upsert_entity_missing(s: Seq<Entity>, e: Entity)
    requires
        forall|j: int| 0 <= j < s.len() ==> s[j].name@ != e.name@,
    ensures
        spec_upsert_entity(s, e) == s.push(e),
    decreases s.len(),
{
    if s.len() == 0 {
        assert(spec_upsert_entity(s, e) =~= s.push(e));
    } else {
        lemma_upsert_entity_missing(s.drop_first(), e);
        assert(spec_upsert_entity(s, e) =~= s.push(e));
    }
}

/// As for entities: replacing the first index bearing the name is the
/// upsert.
proof fn lemma_upsert_field_at(s: Seq<Field>, f: Field, i: int)
    requires
        0 <= i < s.len(),
        s[i].name@ == f.name@,
        forall|j: int| 0 <= j < i ==> s[j].name@ != f.name@,
    ensures
        spec_upsert_field(s, f) == s.update(i, f),
    decreases i,
{
    if i == 0 {
        assert(spec_upsert_field(s, f) =~= s.update(0, f));
    } else {
        assert(forall|j: int| 0 <= j < i - 1 ==> s.drop_first()[j].name@ != f.name@);
        lemma_upsert_field_at(s.drop_first(), f, i - 1);
        assert(spec_upsert_field(s, f) =~= s.update(i, f));
    }
}

/// As for entities: with the name absent, the upsert appends.
proof fn lemma_upsert_field_missing(s: Seq<Field>, f: Field)
    requires
        forall|j: int| 0 <= j < s.len() ==> s[j].name@ != f.name@,
    ensures
        spec_upsert_field(s, f) == s.push(f),
    decreases s.len(),
{
    if s.len() == 0 {
        assert(spec_upsert_field(s, f) =~= s.push(f));
    } else {
        lemma_upsert_field_missing(s.drop_first(), f);
        assert(spec_upsert_field(s, f) =~= s.push(f));
    }
}

/// As for entities: replacing the first index bearing the name is the
/// upsert.
proof fn lemma_upsert_relation_at(s: Seq<Relation>, r: Relation, i: int)
    requires
        0 <= i < s.len(),
        s[i].name@ == r.name@,
        forall|j: int| 0 <= j < i ==> s[j].name@ != r.name@,
    ensures
        spec_upsert_relation(s, r) == s.update(i, r),
    decreases i,
{
    if i == 0 {
        assert(spec_upsert_relation(s, r) =~= s.update(0, r));
    } else {
        assert(forall|j: int| 0 <= j < i - 1 ==> s.drop_first()[j].name@ != r.name@);
        lemma_upsert_relation_at(s.drop_first(), r, i - 1);
        assert(spec_upsert_relation(s, r) =~= s.update(i, r));
    }
}

/// As for entities: with the name absent, the upsert appends.
proof fn lemma_upsert_relation_missing(s: Seq<Relation>, r: Relation)
    requires
        forall|j: int| 0 <= j < s.len() ==> s[j].name@ != r.name@,
    ensures
        spec_upsert_relation(s, r) == s.push(r),
    decreases s.len(),
{
    if s.len() == 0 {
        assert(spec_upsert_relation(s, r) =~= s.push(r));
    } else {
        lemma_upsert_relation_missing(s.drop_first(), r);
        assert(spec_upsert_relation(s, r) =~= s.push(r));
    }
}

impl Entity {
    /// An entity with the given name and no fields or relations yet.
    pub fn new(name: String) -> (r: Self)
        ensures
            r.name@ == name@,
            r.fields@ == Seq::<Field>::empty(),
            r.relations@ == Seq::<Relation>::empty(),
    {
        Entity { name, fields: Vec::new(), relations: Vec::new() }
    }

    /// Add a field, replacing any earlier field of the same name.
    pub fn add_field(&mut self, field: Field)
        ensures
            final(self).fields@ == spec_upsert_field(old(self).fields@, field),
            final(self).name == old(self).name,
            final(self).relations == old(self).relations,
    {
        let ghost orig = self.fields@;
        let mut i: usize = 0;
        while i < self.fields.len()
            invariant
                i <= self.fields@.len(),
                self.fields@ == orig,
                orig == old(self).fields@,
                forall|j: int| 0 <= j < i ==> orig[j].name@ != field.name@,
                self.name == old(self).name,
                self.relations == old(self).relations,
            decreases self.fields@.len() - i,
        {
            if str_eq(self.fields[i].name.as_str(), field.name.as_str()) {
                self.fields.set(i, field);
                proof {
                    lemma_upsert_field_at(orig, field, i as int);
                }
                return ;
            }
            i = i + 1;
        }
        self.fields.push(field);
        proof {
            lemma_upsert_field_missing(orig, field);
        }
    }

    /// Add a relation, replacing any earlier relation of the same name.
    pub fn add_relation(&mut self, relation: Relation)
        ensures
            final(self).relations@ == spec_upsert_relation(old(self).relations@, relation),
            final(self).name == old(self).name,
            final(self).fields == old(self).fields,
    {
        let ghost orig = self.relations@;
        let mut i: usize = 0;
        while i < self.relations.len()
            invariant
                i <= self.relations@.len(),
                self.relations@ == orig,
                orig == old(self).relations@,
                forall|j: int| 0 <= j < i ==> orig[j].name@ != relation.name@,
                self.name == old(self).name,
                self.fields == old(self).fields,
            decreases self.relations@.len() - i,
        {
            if str_eq(self.relations[i].name.as_str(), relation.name.as_str()) {
                self.relations.set(i, relation);
                proof {
                    lemma_upsert_relation_at(orig, relation, i as int);
                }
                return ;
            }
            i = i + 1;
        }
        self.relations.push(relation);
        proof {
            lemma_upsert_relation_missing(orig, relation);
        }
    }

    /// Look up a field by name.
    pub fn get_field(&self, name: &str) -> (r: Option<&Field>)
        ensures
            (match r {
                Some(f) => spec_find_field(self.fields@, name@) == Some(*f),
                None => spec_find_field(self.fields@, name@) is None,
            }),
    {
        proof {
            assert(self.fields@.skip(0) =~= self.fields@);
        }
        let mut i: usize = 0;
        while i < self.fields.len()
            invariant
                i <= self.fields@.len(),
                spec_find_field(self.fields@, name@) == spec_find_field(
                    self.fields@.skip(i as int),
                    name@,
                ),
            decreases self.fields@.len() - i,
        {
            if str_eq(self.fields[i].name.as_str(), name) {
                proof {
                    assert(self.fields@.skip(i as int)[0] == self.fields@[i as int]);
                }
                return Some(&self.fields[i]);
            }
            proof {
                assert(self.fields@.skip(i as int).drop_first() =~= self.fields@.skip(
                    i as int + 1,
                ));
                assert(self.fields@.skip(i as int)[0] == self.fields@[i as int]);
            }
            i = i + 1;
        }
        proof {
            assert(self.fields@.skip(i as int).len() == 0);
        }
        None
    }

    /// Look up a relation by name.
    pub fn get_relation(&self, name: &str) -> (r: Option<&Relation>)
        ensures
            (match r {
                Some(rel) => spec_find_relation(self.relations@, name@) == Some(*rel),
                None => spec_find_relation(self.relations@, name@) is None,
            }),
    {
        proof {
            assert(self.relations@.skip(0) =~= self.relations@);
        }
        let mut i: usize = 0;
        while i < self.relations.len()
            invariant
                i <= self.relations@.len(),
                spec_find_relation(self.relations@, name@) == spec_find_relation(
                    self.relations@.skip(i as int),
                    name@,
                ),
            decreases self.relations@.len() - i,
        {
            if str_eq(self.relations[i].name.as_str(), name) {
                proof {
                    assert(self.relations@.skip(i as int)[0] == self.relations@[i as int]);
                }
                return Some(&self.relations[i]);
            }
            proof {
                assert(self.relations@.skip(i as int).drop_first() =~= self.relations@.skip(
                    i as int + 1,
                ));
                assert(self.relations@.skip(i as int)[0] == self.relations@[i as int]);
            }
            i = i + 1;
        }
        proof {
            assert(self.relations@.skip(i as int).len() == 0);
        }
        None
    }
}

} // verus!
