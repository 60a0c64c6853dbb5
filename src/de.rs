use vstd::prelude::*;
use vstd::slice::slice_subrange;
use vstd::utf8::*;
use crate::error::DeserializeError;
use crate::field::{top_level, FieldConfig, FieldSet};
use crate::text::{
    ascii_chars, ascii_to_chars, decimal, decimal_bytes, field_text, int_text, lemma_blank_text, parse_i64,
    parse_u64, same_text, string_of, trim_str, utf8_str,
};

verus! {

/// The bytes of `input` that field `c` covers, if its range lies within them.
pub open spec fn range_slice(input: Seq<u8>, c: FieldConfig) -> Option<Seq<u8>> {
    if c.range.start <= c.range.end && c.range.end <= input.len() {
        Some(input.subrange(c.range.start as int, c.range.end as int))
    } else {
        None
    }
}

/// The bytes of the first of `fields`, if it is a single field within `input`.
pub open spec fn front_slice(fields: Seq<FieldSet>, input: Seq<u8>) -> Option<Seq<u8>> {
    if fields.len() > 0 && fields[0] is Item {
        range_slice(input, fields[0]->Item_0)
    } else {
        None
    }
}

/// The trimmed text of the first of `fields`, if its bytes exist and are UTF-8.
pub open spec fn front_text(fields: Seq<FieldSet>, input: Seq<u8>) -> Option<Seq<char>> {
    match front_slice(fields, input) {
        Some(b) => if valid_utf8(b) {
            Some(field_text(b))
        } else {
            None
        },
        None => None,
    }
}

/// `e` is the error that reading the text of the first of `fields` gives.
pub open spec fn text_error(e: DeserializeError, fields: Seq<FieldSet>, input: Seq<u8>) -> bool {
    match front_slice(fields, input) {
        Some(b) => !valid_utf8(b) && e is InvalidUtf8,
        None => e is UnexpectedEndOfRecord,
    }
}

/// The fields left once the first has been taken.
pub open spec fn after_next(fields: Seq<FieldSet>) -> Seq<FieldSet> {
    if fields.len() > 0 {
        fields.drop_first()
    } else {
        fields
    }
}

/// A boolean field: blank or `0` is false, any other single character true.
pub open spec fn bool_of(t: Seq<char>) -> bool {
    t.len() == 1 && t[0] != '0'
}

/// A character field: a blank field reads as a space.
pub open spec fn char_of(t: Seq<char>) -> char {
    if t.len() == 0 {
        ' '
    } else {
        t[0]
    }
}

/// The key of a field in a map: its name, or else its range written `start..end`.
pub open spec fn key_of(c: FieldConfig) -> Seq<char> {
    match c.name {
        Some(n) => n@,
        None => ascii_chars(decimal(c.range.start as nat) + seq![46u8, 46u8] + decimal(
            c.range.end as nat,
        )),
    }
}

/// The integer a field's text denotes, if it fits between `lo` and `hi`.
pub open spec fn int_in(t: Seq<char>, signed: bool, lo: int, hi: int) -> Option<int> {
    match int_text(t, signed) {
        Some(v) => if lo <= v <= hi {
            Some(v)
        } else {
            None
        },
        None => None,
    }
}

/// Reads values out of one record, field by field, following a tree of field
/// definitions.
pub struct Deserializer<'r> {
    fields: Vec<FieldSet>,
    input: &'r [u8],
}

/// What stands next in a record when a sequence is read.
pub enum Element<'r> {
    /// A single field: the element is read from the same reader.
    Leaf,
    /// A group: the element is read from this reader, scoped to the group.
    Group(Deserializer<'r>),
    /// No field is left.
    End,
}

impl<'r> Deserializer<'r> {
    /// The trees left to read, in order.
    pub closed spec fn spec_fields(&self) -> Seq<FieldSet> {
        self.fields@
    }

    /// The record being read.
    pub closed spec fn spec_input(&self) -> Seq<u8> {
        self.input@
    }

    /// A reader of `input` that walks the trees of `fields`.
    pub fn new(input: &'r [u8], fields: FieldSet) -> (r: Self)
        ensures
            r.spec_fields() == top_level(fields),
            r.spec_input() == input@,
    {
        Deserializer { fields: fields.into_fields(), input }
    }

    /// The record being read.
    pub fn get_ref(&self) -> (r: &'r [u8])
        ensures
            r@ == self.spec_input(),
    {
        self.input
    }

    /// The next tree, left in place.
    pub fn peek_field(&self) -> (r: Option<&FieldSet>)
        ensures
            r is Some <==> self.spec_fields().len() > 0,
            r is Some ==> *r->0 == self.spec_fields()[0],
    {
        if self.fields.len() > 0 {
            Some(&self.fields[0])
        } else {
            None
        }
    }

    /// Passes over the next tree, whatever it holds.
    pub fn skip_field(&mut self)
        ensures
            final(self).spec_fields() == after_next(old(self).spec_fields()),
            final(self).spec_input() == old(self).spec_input(),
    {
        if self.fields.len() > 0 {
            self.fields.remove(0);
        }
    }

    /// Whether no tree is left.
    pub fn done(&self) -> (r: bool)
        ensures
            r == (self.spec_fields().len() == 0),
    {
        self.fields.len() == 0
    }

    /// The bytes of the next field, left in place.
    pub fn peek_bytes(&self) -> (r: Result<&'r [u8], DeserializeError>)
        ensures
            r is Ok <==> front_slice(self.spec_fields(), self.spec_input()) is Some,
            r is Ok ==> r->Ok_0@ == front_slice(self.spec_fields(), self.spec_input())->0,
            r is Err ==> r->Err_0 is UnexpectedEndOfRecord,
    {
        if self.fields.len() == 0 {
            return Err(DeserializeError::UnexpectedEndOfRecord);
        }
        match &self.fields[0] {
            FieldSet::Item(c) => self.slice_of(c),
            FieldSet::Group(_) => Err(DeserializeError::UnexpectedEndOfRecord),
        }
    }

    fn slice_of(&self, c: &FieldConfig) -> (r: Result<&'r [u8], DeserializeError>)
        ensures
            r is Ok <==> range_slice(self.spec_input(), *c) is Some,
            r is Ok ==> r->Ok_0@ == range_slice(self.spec_input(), *c)->0,
            r is Err ==> r->Err_0 is UnexpectedEndOfRecord,
    {
        let start = c.range.start;
        let end = c.range.end;
        if start <= end && end <= self.input.len() {
            Ok(slice_subrange(self.input, start, end))
        } else {
            Err(DeserializeError::UnexpectedEndOfRecord)
        }
    }

    /// The bytes of the next field, which is taken.
    pub fn next_bytes(&mut self) -> (r: Result<&'r [u8], DeserializeError>)
        ensures
            r is Ok <==> front_slice(old(self).spec_fields(), old(self).spec_input()) is Some,
            r is Ok ==> r->Ok_0@ == front_slice(old(self).spec_fields(), old(self).spec_input())->0,
            r is Err ==> r->Err_0 is UnexpectedEndOfRecord,
            final(self).spec_fields() == after_next(old(self).spec_fields()),
            final(self).spec_input() == old(self).spec_input(),
    {
        if self.fields.len() == 0 {
            return Err(DeserializeError::UnexpectedEndOfRecord);
        }
        let f = self.fields.remove(0);
        match f {
            FieldSet::Item(c) => self.slice_of(&c),
            FieldSet::Group(_) => Err(DeserializeError::UnexpectedEndOfRecord),
        }
    }

    /// The trimmed text of the next field, left in place.
    pub fn peek_str(&self) -> (r: Result<&'r str, DeserializeError>)
        ensures
            match front_text(self.spec_fields(), self.spec_input()) {
                Some(t) => r is Ok && r->Ok_0@ == t,
                None => r is Err && text_error(r->Err_0, self.spec_fields(), self.spec_input()),
            },
    {
        let b = self.peek_bytes()?;
        match utf8_str(b) {
            Ok(s) => Ok(trim_str(s)),
            Err(e) => Err(DeserializeError::InvalidUtf8(e)),
        }
    }

    /// The trimmed text of the next field, which is taken.
    pub fn next_str(&mut self) -> (r: Result<&'r str, DeserializeError>)
        ensures
            match front_text(old(self).spec_fields(), old(self).spec_input()) {
                Some(t) => r is Ok && r->Ok_0@ == t,
                None => r is Err && text_error(
                    r->Err_0,
                    old(self).spec_fields(),
                    old(self).spec_input(),
                ),
            },
            final(self).spec_fields() == after_next(old(self).spec_fields()),
            final(self).spec_input() == old(self).spec_input(),
    {
        let b = self.next_bytes()?;
        match utf8_str(b) {
            Ok(s) => Ok(trim_str(s)),
            Err(e) => Err(DeserializeError::InvalidUtf8(e)),
        }
    }
}

impl<'r> Deserializer<'r> {
    /// Reads the next field as a boolean: blank or `0` is false, any other single
    /// character true, and a longer text an error.
    pub fn next_bool(&mut self) -> (r: Result<bool, DeserializeError>)
        ensures
            match front_text(old(self).spec_fields(), old(self).spec_input()) {
                Some(t) => if t.len() <= 1 {
                    r == Ok::<bool, DeserializeError>(bool_of(t))
                } else {
                    r is Err && r->Err_0 is Message
                },
                None => r is Err && text_error(
                    r->Err_0,
                    old(self).spec_fields(),
                    old(self).spec_input(),
                ),
            },
            final(self).spec_fields() == after_next(old(self).spec_fields()),
            final(self).spec_input() == old(self).spec_input(),
    {
        let s = self.next_str()?;
        let n = s.unicode_len();
        if n > 1 {
            Err(DeserializeError::Message("expected bool field to be a single character".to_owned()))
        } else if n == 0 {
            Ok(false)
        } else {
            Ok(s.get_char(0) != '0')
        }
    }

    /// Reads the next field as a character; a blank field reads as a space, and
    /// a longer text is an error.
    pub fn next_char(&mut self) -> (r: Result<char, DeserializeError>)
        ensures
            match front_text(old(self).spec_fields(), old(self).spec_input()) {
                Some(t) => if t.len() <= 1 {
                    r == Ok::<char, DeserializeError>(char_of(t))
                } else {
                    r is Err && r->Err_0 is Message
                },
                None => r is Err && text_error(
                    r->Err_0,
                    old(self).spec_fields(),
                    old(self).spec_input(),
                ),
            },
            final(self).spec_fields() == after_next(old(self).spec_fields()),
            final(self).spec_input() == old(self).spec_input(),
    {
        let s = self.next_str()?;
        let n = s.unicode_len();
        if n > 1 {
            Err(DeserializeError::Message("expected char field to be a single character".to_owned()))
        } else if n == 0 {
            Ok(' ')
        } else {
            Ok(s.get_char(0))
        }
    }

    /// Reads the next field as a signed decimal integer.
    pub fn next_i64(&mut self) -> (r: Result<i64, DeserializeError>)
        ensures
            match front_text(old(self).spec_fields(), old(self).spec_input()) {
                Some(t) => match int_in(t, true, i64::MIN as int, i64::MAX as int) {
                    Some(v) => r is Ok && r->Ok_0 as int == v,
                    None => r is Err && r->Err_0 is ParseIntError,
                },
                None => r is Err && text_error(
                    r->Err_0,
                    old(self).spec_fields(),
                    old(self).spec_input(),
                ),
            },
            final(self).spec_fields() == after_next(old(self).spec_fields()),
            final(self).spec_input() == old(self).spec_input(),
    {
        let s = self.next_str()?;
        match parse_i64(s) {
            Ok(v) => Ok(v),
            Err(e) => Err(DeserializeError::ParseIntError(e)),
        }
    }

    /// Reads the next field as an unsigned decimal integer.
    pub fn next_u64(&mut self) -> (r: Result<u64, DeserializeError>)
        ensures
            match front_text(old(self).spec_fields(), old(self).spec_input()) {
                Some(t) => match int_in(t, false, 0, u64::MAX as int) {
                    Some(v) => r is Ok && r->Ok_0 as int == v,
                    None => r is Err && r->Err_0 is ParseIntError,
                },
                None => r is Err && text_error(
                    r->Err_0,
                    old(self).spec_fields(),
                    old(self).spec_input(),
                ),
            },
            final(self).spec_fields() == after_next(old(self).spec_fields()),
            final(self).spec_input() == old(self).spec_input(),
    {
        let s = self.next_str()?;
        match parse_u64(s) {
            Ok(v) => Ok(v),
            Err(e) => Err(DeserializeError::ParseIntError(e)),
        }
    }

    /// Decides an optional value: when the next field is blank it is taken and
    /// the value is absent (`true`); otherwise it is left for the wrapped value.
    pub fn skip_if_blank(&mut self) -> (r: Result<bool, DeserializeError>)
        ensures
            match front_text(old(self).spec_fields(), old(self).spec_input()) {
                Some(t) => {
                    &&& r == Ok::<bool, DeserializeError>(t.len() == 0)
                    &&& final(self).spec_fields() == if t.len() == 0 {
                        after_next(old(self).spec_fields())
                    } else {
                        old(self).spec_fields()
                    }
                },
                None => {
                    &&& r is Err
                    &&& text_error(r->Err_0, old(self).spec_fields(), old(self).spec_input())
                    &&& final(self).spec_fields() == old(self).spec_fields()
                },
            },
            final(self).spec_input() == old(self).spec_input(),
    {
        let s = self.peek_str()?;
        if s.unicode_len() == 0 {
            self.skip_field();
            Ok(true)
        } else {
            Ok(false)
        }
    }

    /// Decides where the next element of a sequence comes from: a single field
    /// is read from this reader, and a group is taken and read from a reader of
    /// its own.
    pub fn next_element(&mut self) -> (r: Element<'r>)
        ensures
            old(self).spec_fields().len() == 0 ==> r is End,
            old(self).spec_fields().len() > 0 && old(self).spec_fields()[0] is Item ==> r is Leaf,
            old(self).spec_fields().len() > 0 && old(self).spec_fields()[0] is Group ==> {
                &&& r is Group
                &&& r->Group_0.spec_fields() == old(self).spec_fields()[0]->Group_0@
                &&& r->Group_0.spec_input() == old(self).spec_input()
            },
            final(self).spec_fields() == if r is Group {
                after_next(old(self).spec_fields())
            } else {
                old(self).spec_fields()
            },
            final(self).spec_input() == old(self).spec_input(),
    {
        if self.fields.len() == 0 {
            return Element::End;
        }
        if let FieldSet::Item(_) = &self.fields[0] {
            return Element::Leaf;
        }
        match self.fields.remove(0) {
            FieldSet::Group(v) => Element::Group(Deserializer { fields: v, input: self.input }),
            FieldSet::Item(_) => Element::Leaf,
        }
    }

    /// The key under which the next field is read into a map: its name, or its
    /// range written `start..end`. `None` once no field is left.
    pub fn next_key(&self) -> (r: Result<Option<String>, DeserializeError>)
        ensures
            self.spec_fields().len() == 0 ==> r matches Ok(None),
            self.spec_fields().len() > 0 && self.spec_fields()[0] is Group ==> r matches Err(
                DeserializeError::UnexpectedEndOfRecord,
            ),
            self.spec_fields().len() > 0 && self.spec_fields()[0] is Item ==> {
                &&& r matches Ok(Some(_))
                &&& r->Ok_0->0@ == key_of(self.spec_fields()[0]->Item_0)
            },
    {
        if self.fields.len() == 0 {
            return Ok(None);
        }
        match &self.fields[0] {
            FieldSet::Item(c) => match &c.name {
                Some(n) => Ok(Some(n.clone())),
                None => {
                    let mut b = decimal_bytes(c.range.start as u64);
                    b.push(46u8);
                    b.push(46u8);
                    let mut e = decimal_bytes(c.range.end as u64);
                    b.append(&mut e);
                    let chars = ascii_to_chars(&b);
                    let s = string_of(&chars);
                    proof {
                        assert(b@ =~= decimal(c.range.start as nat) + seq![46u8, 46u8] + decimal(
                            c.range.end as nat,
                        ));
                    }
                    Ok(Some(s))
                },
            },
            FieldSet::Group(_) => Err(DeserializeError::UnexpectedEndOfRecord),
        }
    }

    /// Reads the next field as the tag of an enum variant: the index of the
    /// first of `variants` that equals its text, matched case-sensitively.
    pub fn next_variant(&mut self, variants: &[&str]) -> (r: Result<usize, DeserializeError>)
        ensures
            match front_text(old(self).spec_fields(), old(self).spec_input()) {
                Some(t) => if exists|i: int| 0 <= i < variants@.len() && (#[trigger] variants@[i])@ == t {
                    &&& r is Ok
                    &&& r->Ok_0 < variants@.len()
                    &&& variants@[r->Ok_0 as int]@ == t
                    &&& forall|j: int| 0 <= j < r->Ok_0 ==> (#[trigger] variants@[j])@ != t
                } else {
                    r is Err && r->Err_0 is Message
                },
                None => r is Err && text_error(
                    r->Err_0,
                    old(self).spec_fields(),
                    old(self).spec_input(),
                ),
            },
            final(self).spec_fields() == after_next(old(self).spec_fields()),
            final(self).spec_input() == old(self).spec_input(),
    {
        let s = self.next_str()?;
        let mut i: usize = 0;
        while i < variants.len()
            invariant
                i <= variants@.len(),
                forall|j: int| 0 <= j < i ==> (#[trigger] variants@[j])@ != s@,
                front_text(old(self).spec_fields(), old(self).spec_input()) == Some(s@),
                self.spec_fields() == after_next(old(self).spec_fields()),
                self.spec_input() == old(self).spec_input(),
            decreases variants@.len() - i,
        {
            if same_text(variants[i], s) {
                return Ok(i);
            }
            i += 1;
        }
        Err(DeserializeError::Message("unknown variant".to_owned()))
    }
}

/// Blank fields: a field of spaces only reads as false when boolean, as a
/// space when a character, and as absent when optional; it never fails.
pub proof fn lemma_blank_field(fields: Seq<FieldSet>, input: Seq<u8>)
    requires
        front_slice(fields, input) is Some,
        forall|i: int|
            0 <= i < front_slice(fields, input)->0.len() ==> #[trigger] front_slice(
                fields,
                input,
            )->0[i] == 32u8,
    ensures
        front_text(fields, input) == Some(Seq::<char>::empty()),
        bool_of(Seq::<char>::empty()) == false,
        char_of(Seq::<char>::empty()) == ' ',
{
    lemma_blank_text(front_slice(fields, input)->0);
}

} // verus!
