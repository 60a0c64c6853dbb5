use vstd::prelude::*;
use std::ops::Range;

verus! {

/// Which side of a field keeps its content when the field is written; the other
/// side receives the padding.
#[derive(Clone, Copy, Debug, PartialEq, Eq, Structural)]
pub enum Justify {
    Left,
    Right,
}

/// Describes one field: a half-open byte range of the record, an optional name,
/// the character that pads short values on write, and the justification.
#[derive(Debug)]
pub struct FieldConfig {
    pub range: Range<usize>,
    pub name: Option<String>,
    pub pad_with: char,
    pub justify: Justify,
}

/// A tree of field definitions: a single field, or an ordered group of trees.
#[derive(Debug)]
pub enum FieldSet {
    Item(FieldConfig),
    Group(Vec<FieldSet>),
}

/// The leaves of a list of trees, in document order.
pub open spec fn leaves_of(s: Seq<FieldSet>) -> Seq<FieldConfig>
    decreases s,
{
    if s.len() == 0 {
        Seq::empty()
    } else {
        let rest = leaves_of(s.drop_last());
        match s.last() {
            FieldSet::Item(c) => rest.push(c),
            FieldSet::Group(v) => rest + leaves_of(v@),
        }
    }
}

/// The leaves of a tree, in document order.
pub open spec fn leaves(f: FieldSet) -> Seq<FieldConfig> {
    match f {
        FieldSet::Item(c) => seq![c],
        FieldSet::Group(v) => leaves_of(v@),
    }
}

/// The trees a cursor over `f` walks through: the children of a group, or the
/// field itself.
pub open spec fn top_level(f: FieldSet) -> Seq<FieldSet> {
    match f {
        FieldSet::Item(c) => seq![FieldSet::Item(c)],
        FieldSet::Group(v) => v@,
    }
}

impl FieldSet {
    /// A field over `range`, unnamed, padded with spaces and justified left.
    pub fn new_field(range: Range<usize>) -> (r: FieldSet)
        ensures
            r == FieldSet::Item(FieldConfig { range, name: None, pad_with: ' ', justify: Justify::Left }),
    {
        FieldSet::Item(FieldConfig { range, name: None, pad_with: ' ', justify: Justify::Left })
    }

    /// Sets the name of a field; a group is returned unchanged.
    pub fn name(self, name: &str) -> (r: FieldSet)
        ensures
            match self {
                FieldSet::Item(c) => {
                    &&& r is Item
                    &&& r->Item_0.range == c.range
                    &&& r->Item_0.name is Some
                    &&& r->Item_0.name->0@ == name@
                    &&& r->Item_0.pad_with == c.pad_with
                    &&& r->Item_0.justify == c.justify
                },
                FieldSet::Group(_) => r == self,
            },
    {
        match self {
            FieldSet::Item(c) => FieldSet::Item(FieldConfig {
                range: c.range,
                name: Some(name.to_owned()),
                pad_with: c.pad_with,
                justify: c.justify,
            }),
            FieldSet::Group(v) => FieldSet::Group(v),
        }
    }

    /// Sets the padding character of a field; a group is returned unchanged.
    pub fn pad_with(self, pad: char) -> (r: FieldSet)
        ensures
            match self {
                FieldSet::Item(c) => r == FieldSet::Item(FieldConfig { pad_with: pad, ..c }),
                FieldSet::Group(_) => r == self,
            },
    {
        match self {
            FieldSet::Item(c) => FieldSet::Item(FieldConfig { pad_with: pad, ..c }),
            FieldSet::Group(v) => FieldSet::Group(v),
        }
    }

    /// Sets the justification of a field; a group is returned unchanged.
    pub fn justify(self, justify: Justify) -> (r: FieldSet)
        ensures
            match self {
                FieldSet::Item(c) => r == FieldSet::Item(FieldConfig { justify, ..c }),
                FieldSet::Group(_) => r == self,
            },
    {
        match self {
            FieldSet::Item(c) => FieldSet::Item(FieldConfig { justify, ..c }),
            FieldSet::Group(v) => FieldSet::Group(v),
        }
    }

    /// The trees a cursor over this tree walks through, in order.
    pub fn into_fields(self) -> (r: Vec<FieldSet>)
        ensures
            r@ == top_level(self),
    {
        match self {
            FieldSet::Item(c) => vec![FieldSet::Item(c)],
            FieldSet::Group(v) => v,
        }
    }
}

} // verus!
