//! The document schema: an identifier attribute plus an ordered list of
//! named attributes, each carrying storage, indexing and ranking properties.
//! Attribute numbers are dense `u16` values in insertion order.

use vstd::prelude::*;

verus! {

/// Storage, indexing and ranking properties of one attribute.
#[derive(Debug, Copy, Clone, PartialEq, Eq, Structural)]
pub struct SchemaProps {
    pub stored: bool,
    pub indexed: bool,
    pub ranked: bool,
}

impl View for SchemaProps {
    type V = SchemaProps;

    open spec fn view(&self) -> SchemaProps {
        *self
    }
}

impl DeepView for SchemaProps {
    type V = SchemaProps;

    open spec fn deep_view(&self) -> SchemaProps {
        *self
    }
}

impl SchemaProps {
    pub fn is_stored(self) -> (r: bool)
        ensures
            r == self.stored,
    {
        self.stored
    }

    pub fn is_indexed(self) -> (r: bool)
        ensures
            r == self.indexed,
    {
        self.indexed
    }

    pub fn is_ranked(self) -> (r: bool)
        ensures
            r == self.ranked,
    {
        self.ranked
    }

    /// The union of two property sets, field by field.
    pub fn merge(self, other: SchemaProps) -> (r: SchemaProps)
        ensures
            r.stored == (self.stored || other.stored),
            r.indexed == (self.indexed || other.indexed),
            r.ranked == (self.ranked || other.ranked),
    {
        SchemaProps {
            stored: self.stored || other.stored,
            indexed: self.indexed || other.indexed,
            ranked: self.ranked || other.ranked,
        }
    }
}

/// Attributes that are only stored.
pub fn stored_props() -> (r: SchemaProps)
    ensures
        r == (SchemaProps { stored: true, indexed: false, ranked: false }),
{
    SchemaProps { stored: true, indexed: false, ranked: false }
}

/// Attributes that are only indexed.
pub fn indexed_props() -> (r: SchemaProps)
    ensures
        r == (SchemaProps { stored: false, indexed: true, ranked: false }),
{
    SchemaProps { stored: false, indexed: true, ranked: false }
}

/// Attributes that are only ranked.
pub fn ranked_props() -> (r: SchemaProps)
    ensures
        r == (SchemaProps { stored: false, indexed: false, ranked: true }),
{
    SchemaProps { stored: false, indexed: false, ranked: true }
}

/// The number of one attribute inside a schema.
#[derive(Debug, Copy, Clone, PartialEq, Eq, Structural, PartialOrd, Ord, Hash)]
pub struct SchemaAttr(pub u16);

impl SchemaAttr {
    pub fn new(value: u16) -> (r: SchemaAttr)
        ensures
            r.0 == value,
    {
        SchemaAttr(value)
    }

    pub fn min() -> (r: SchemaAttr)
        ensures
            r.0 == 0,
    {
        SchemaAttr(0)
    }

    pub fn max() -> (r: SchemaAttr)
        ensures
            r.0 == 0xffff,
    {
        SchemaAttr(0xffff)
    }

    /// The next attribute number, if any.
    pub fn next(self) -> (r: Option<SchemaAttr>)
        ensures
            self.0 < 0xffff ==> (r matches Some(a) && a.0 == self.0 + 1),
            self.0 == 0xffff ==> r is None,
    {
        match self.0.checked_add(1) {
            Some(v) => Some(SchemaAttr(v)),
            None => None,
        }
    }

    /// The previous attribute number, if any.
    pub fn prev(self) -> (r: Option<SchemaAttr>)
        ensures
            self.0 > 0 ==> (r matches Some(a) && a.0 == self.0 - 1),
            self.0 == 0 ==> r is None,
    {
        match self.0.checked_sub(1) {
            Some(v) => Some(SchemaAttr(v)),
            None => None,
        }
    }
}

/// The attribute list of a schema under construction: names unique, count
/// within the `u16` range.
pub open spec fn attrs_wf(attrs: Seq<(String, SchemaProps)>) -> bool {
    &&& attrs.len() <= 0xffff
    &&& forall|i: int, j: int|
        0 <= i < j < attrs.len() ==> (#[trigger] attrs[i].0)@ != (#[trigger] attrs[j].0)@
}

/// A schema under construction.
pub struct SchemaBuilder {
    pub identifier: String,
    pub attributes: Vec<(String, SchemaProps)>,
}

impl SchemaBuilder {
    /// Starts a schema with the given identifier attribute.
    pub fn with_identifier(name: String) -> (r: SchemaBuilder)
        ensures
            r.identifier@ == name@,
            r.attributes@.len() == 0,
            attrs_wf(r.attributes@),
    {
        SchemaBuilder { identifier: name, attributes: Vec::new() }
    }

    /// Appends a new attribute and returns its number. The name must be
    /// fresh and the schema must have room.
    pub fn new_attribute(&mut self, name: String, props: SchemaProps) -> (r: SchemaAttr)
        requires
            attrs_wf(old(self).attributes@),
            old(self).attributes@.len() < 0xffff,
            forall|i: int|
                0 <= i < old(self).attributes@.len() ==> (#[trigger] old(
                    self,
                ).attributes@[i].0)@ != name@,
        ensures
            attrs_wf(final(self).attributes@),
            final(self).identifier == old(self).identifier,
            final(self).attributes@ == old(self).attributes@.push((name, props)),
            r.0 == old(self).attributes@.len(),
    {
        let len = self.attributes.len();
        let entry = (name, props);
        self.attributes.push(entry);
        SchemaAttr(len as u16)
    }

    /// Freezes the builder into a schema.
    pub fn build(self) -> (r: Schema)
        requires
            attrs_wf(self.attributes@),
        ensures
            r.wf(),
            r.identifier@ == self.identifier@,
            r.attrs@ == self.attributes@,
    {
        Schema { identifier: self.identifier, attrs: self.attributes }
    }
}

/// A frozen schema: the identifier attribute plus the ordered attribute
/// list; the number of an attribute is its position.
pub struct Schema {
    pub identifier: String,
    pub attrs: Vec<(String, SchemaProps)>,
}

impl Schema {
    /// Names are unique and the count fits the `u16` attribute numbers.
    pub open spec fn wf(self) -> bool {
        attrs_wf(self.attrs@)
    }

    /// The name of the identifier attribute.
    pub fn identifier_name(&self) -> (r: String)
        ensures
            r@ == self.identifier@,
    {
        self.identifier.clone()
    }

    /// The properties of the attribute with the given number.
    pub fn props(&self, attr: SchemaAttr) -> (r: SchemaProps)
        requires
            (attr.0 as int) < self.attrs@.len(),
        ensures
            r == self.attrs@[attr.0 as int].1,
    {
        self.attrs[attr.0 as usize].1
    }

    /// The name of the attribute with the given number.
    pub fn attribute_name(&self, attr: SchemaAttr) -> (r: String)
        requires
            (attr.0 as int) < self.attrs@.len(),
        ensures
            r@ == self.attrs@[attr.0 as int].0@,
    {
        self.attrs[attr.0 as usize].0.clone()
    }

    /// The number of the attribute with the given name, if it exists.
    pub fn attribute(&self, name: &String) -> (r: Option<SchemaAttr>)
        requires
            self.wf(),
        ensures
            (exists|i: int|
                0 <= i < self.attrs@.len() && (#[trigger] self.attrs@[i].0)@ == name@) ==> (
            r matches Some(a) && (a.0 as int) < self.attrs@.len() && self.attrs@[a.0 as int].0@
                == name@),
            (forall|i: int|
                0 <= i < self.attrs@.len() ==> (#[trigger] self.attrs@[i].0)@ != name@) ==> r
                is None,
    {
        let n: usize = self.attrs.len();
        for i in 0..n
            invariant
                self.wf(),
                n == self.attrs@.len(),
                forall|j: int| 0 <= j < i ==> (#[trigger] self.attrs@[j].0)@ != name@,
        {
            if self.attrs[i].0 == *name {
                return Some(SchemaAttr(i as u16));
            }
        }
        None
    }

    /// Appends a new attribute to a frozen schema and returns its number.
    pub fn new_attribute(&mut self, name: String, props: SchemaProps) -> (r: SchemaAttr)
        requires
            old(self).wf(),
            old(self).attrs@.len() < 0xffff,
            forall|i: int|
                0 <= i < old(self).attrs@.len() ==> (#[trigger] old(self).attrs@[i].0)@ != name@,
        ensures
            final(self).wf(),
            final(self).identifier == old(self).identifier,
            final(self).attrs@ == old(self).attrs@.push((name, props)),
            r.0 == old(self).attrs@.len(),
    {
        let len = self.attrs.len();
        let entry = (name, props);
        self.attrs.push(entry);
        SchemaAttr(len as u16)
    }

    /// The attributes in number order, with their names and properties.
    pub fn attributes_ordered(&self) -> (r: Vec<(String, SchemaProps)>)
        ensures
            r.deep_view() == self.attrs.deep_view(),
            r@.len() == self.attrs@.len(),
    {
        let mut out: Vec<(String, SchemaProps)> = Vec::new();
        for i in 0..self.attrs.len()
            invariant
                out@.len() == i,
                forall|j: int| 0 <= j < i ==> out@[j] == self.attrs@[j],
        {
            let entry = (self.attrs[i].0.clone(), self.attrs[i].1);
            out.push(entry);
        }
        proof {
            assert(out.deep_view() =~~= self.attrs.deep_view());
        }
        out
    }
}

} // verus!
