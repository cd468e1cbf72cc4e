use vstd::prelude::*;

verus! {

/// Names in the profile vocabulary: the vocabulary itself and the attributes
/// it declares. The store resolves each installed attribute name to an
/// entity id of its own.
#[derive(Clone, Copy, PartialEq, Eq, Structural, Debug)]
pub enum Keyword {
    FenixProfile,
    PageUrl,
    VisitPage,
    VisitWhen,
    UrlMetaVisit,
    UrlMetaTitle,
}

/// The type of values an attribute admits.
#[derive(Clone, Copy, PartialEq, Eq, Structural, Debug)]
pub enum ValueType {
    Ref,
    Text,
    Instant,
}

/// Kinds of uniqueness constraint an attribute can carry. A unique attribute
/// admits each value on at most one entity, and a staged assertion of an
/// existing value resolves to the owning entity instead of creating a new one.
#[derive(Clone, Copy, PartialEq, Eq, Structural, Debug)]
pub enum Unique {
    Identity,
    Value,
}

/// The declared shape of one attribute: value type, uniqueness, index flags,
/// and whether it admits several values on one entity.
#[derive(Clone, Copy, PartialEq, Eq, Structural, Debug)]
pub struct Attribute {
    pub value_type: ValueType,
    pub unique: Option<Unique>,
    pub index: bool,
    pub fulltext: bool,
    pub multival: bool,
}

impl Attribute {
    /// Whether the attribute carries a uniqueness constraint.
    pub open spec fn is_unique(self) -> bool {
        self.unique is Some
    }
}

/// Builder for an `Attribute`, mirroring how a vocabulary definition is
/// written out attribute by attribute.
pub struct AttributeBuilder {
    value_type: Option<ValueType>,
    unique: Option<Unique>,
    index: bool,
    fulltext: bool,
    multival: bool,
}

impl AttributeBuilder {
    /// A builder with nothing set: no value type yet, no uniqueness, no
    /// indexing, single-valued.
    pub fn default() -> (b: AttributeBuilder)
        ensures
            b.spec_value_type() is None,
            b.spec_unique() is None,
            !b.spec_index(),
            !b.spec_fulltext(),
            !b.spec_multival(),
    {
        AttributeBuilder { value_type: None, unique: None, index: false, fulltext: false, multival: false }
    }

    pub closed spec fn spec_value_type(self) -> Option<ValueType> {
        self.value_type
    }

    pub closed spec fn spec_unique(self) -> Option<Unique> {
        self.unique
    }

    pub closed spec fn spec_index(self) -> bool {
        self.index
    }

    pub closed spec fn spec_fulltext(self) -> bool {
        self.fulltext
    }

    pub closed spec fn spec_multival(self) -> bool {
        self.multival
    }

    pub fn value_type(self, value_type: ValueType) -> (b: AttributeBuilder)
        ensures
            b.spec_value_type() == Some(value_type),
            b.spec_unique() == self.spec_unique(),
            b.spec_index() == self.spec_index(),
            b.spec_fulltext() == self.spec_fulltext(),
            b.spec_multival() == self.spec_multival(),
    {
        AttributeBuilder { value_type: Some(value_type), ..self }
    }

    pub fn unique(self, unique: Unique) -> (b: AttributeBuilder)
        ensures
            b.spec_unique() == Some(unique),
            b.spec_value_type() == self.spec_value_type(),
            b.spec_index() == self.spec_index(),
            b.spec_fulltext() == self.spec_fulltext(),
            b.spec_multival() == self.spec_multival(),
    {
        AttributeBuilder { unique: Some(unique), ..self }
    }

    pub fn index(self, index: bool) -> (b: AttributeBuilder)
        ensures
            b.spec_index() == index,
            b.spec_value_type() == self.spec_value_type(),
            b.spec_unique() == self.spec_unique(),
            b.spec_fulltext() == self.spec_fulltext(),
            b.spec_multival() == self.spec_multival(),
    {
        AttributeBuilder { index, ..self }
    }

    pub fn fulltext(self, fulltext: bool) -> (b: AttributeBuilder)
        ensures
            b.spec_fulltext() == fulltext,
            b.spec_value_type() == self.spec_value_type(),
            b.spec_unique() == self.spec_unique(),
            b.spec_index() == self.spec_index(),
            b.spec_multival() == self.spec_multival(),
    {
        AttributeBuilder { fulltext, ..self }
    }

    pub fn multival(self, multival: bool) -> (b: AttributeBuilder)
        ensures
            b.spec_multival() == multival,
            b.spec_value_type() == self.spec_value_type(),
            b.spec_unique() == self.spec_unique(),
            b.spec_index() == self.spec_index(),
            b.spec_fulltext() == self.spec_fulltext(),
    {
        AttributeBuilder { multival, ..self }
    }

    pub fn build(self) -> (a: Attribute)
        requires
            self.spec_value_type() is Some,
        ensures
            a == (Attribute {
                value_type: self.spec_value_type().unwrap(),
                unique: self.spec_unique(),
                index: self.spec_index(),
                fulltext: self.spec_fulltext(),
                multival: self.spec_multival(),
            }),
    {
        Attribute {
            value_type: match self.value_type {
                Some(t) => t,
                None => ValueType::Ref,
            },
            unique: self.unique,
            index: self.index,
            fulltext: self.fulltext,
            multival: self.multival,
        }
    }
}

/// A named, versioned set of attribute declarations, ensured present in the
/// store by the schema initializer.
pub struct Definition {
    pub name: Keyword,
    pub version: u32,
    pub attributes: Vec<(Keyword, Attribute)>,
}

/// One attribute installed in a store's schema, under the entity id the store
/// assigned to it.
#[derive(Clone, Copy, Debug)]
pub struct SchemaEntry {
    pub name: Keyword,
    pub entid: i64,
    pub attribute: Attribute,
}

/// Bookkeeping record for an installed vocabulary: its name and the version
/// at which it was last ensured.
#[derive(Clone, Copy, Debug)]
pub struct VocabEntry {
    pub name: Keyword,
    pub version: u32,
}

} // verus!
