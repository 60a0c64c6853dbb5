use vstd::prelude::*;
use vstd::utf8::*;
use crate::de::range_slice;
use crate::error::SerializeError;
use crate::field::{leaves, leaves_of, FieldConfig, FieldSet, Justify};
use crate::text::{char_utf8, decimal, decimal_bytes, field_text};

verus! {

/// Where and how one field is written: its byte range, padding and justification.
#[derive(Clone, Copy, Debug)]
pub struct Slot {
    pub start: usize,
    pub end: usize,
    pub pad_with: char,
    pub justify: Justify,
}

pub open spec fn slot_of(c: FieldConfig) -> Slot {
    Slot { start: c.range.start, end: c.range.end, pad_with: c.pad_with, justify: c.justify }
}

/// The slots of a tree's leaves, in document order.
pub open spec fn layout(f: FieldSet) -> Seq<Slot> {
    leaves(f).map_values(|c: FieldConfig| slot_of(c))
}

pub open spec fn slot_width(s: Slot) -> nat {
    if s.start < s.end {
        (s.end - s.start) as nat
    } else {
        0
    }
}

/// The length of a record that holds every non-empty slot: the largest end.
pub open spec fn record_len(s: Seq<Slot>) -> nat
    decreases s.len(),
{
    if s.len() == 0 {
        0
    } else {
        let rest = record_len(s.drop_last());
        if slot_width(s.last()) > 0 && s.last().end > rest {
            s.last().end as nat
        } else {
            rest
        }
    }
}

/// `n` bytes of padding: the padding unit repeated, cut at `n` bytes.
pub open spec fn pad_run(unit: Seq<u8>, n: nat) -> Seq<u8> {
    Seq::new(n, |i: int| unit[i % unit.len() as int])
}

/// `content` made exactly `w` bytes wide: cut to its first `w` bytes when longer,
/// otherwise padded on the side opposite the justification.
pub open spec fn fit(content: Seq<u8>, w: nat, unit: Seq<u8>, j: Justify) -> Seq<u8> {
    if content.len() >= w {
        content.take(w as int)
    } else {
        match j {
            Justify::Left => content + pad_run(unit, (w - content.len()) as nat),
            Justify::Right => pad_run(unit, (w - content.len()) as nat) + content,
        }
    }
}

/// `out` with `content`, fitted to slot `s`, written over the slot's range.
pub open spec fn placed(out: Seq<u8>, s: Slot, content: Seq<u8>) -> Seq<u8> {
    let f = fit(content, slot_width(s), encode_utf8(seq![s.pad_with]), s.justify);
    Seq::new(
        out.len(),
        |k: int|
            if slot_width(s) > 0 && s.start <= k < s.end {
                f[k - s.start]
            } else {
                out[k]
            },
    )
}

/// The text form of a signed integer.
pub open spec fn signed_decimal(v: int) -> Seq<u8> {
    if v < 0 {
        seq![45u8] + decimal((-v) as nat)
    } else {
        decimal(v as nat)
    }
}

/// The text form of a boolean.
pub open spec fn bool_text(b: bool) -> Seq<u8> {
    if b {
        seq![116u8, 114u8, 117u8, 101u8]
    } else {
        seq![102u8, 97u8, 108u8, 115u8, 101u8]
    }
}

/// Writes values into one record, field by field, following a tree of field
/// definitions. Each value lands at its field's own byte range; bytes that no
/// field covers stay spaces.
pub struct Serializer {
    slots: Vec<Slot>,
    next: usize,
    output: Vec<u8>,
}

fn collect_slots(f: &FieldSet, out: &mut Vec<Slot>)
    ensures
        final(out)@ == old(out)@ + layout(*f),
    decreases f,
{
    match f {
        FieldSet::Item(c) => {
            out.push(Slot { start: c.range.start, end: c.range.end, pad_with: c.pad_with, justify: c.justify });
            assert(layout(*f) =~= seq![slot_of(*c)]);
        },
        FieldSet::Group(v) => {
            let ghost start = out@;
            let mut i: usize = 0;
            while i < v.len()
                invariant
                    i <= v@.len(),
                    f is Group,
                    f->Group_0 == *v,
                    out@ == start + leaves_of(v@.take(i as int)).map_values(|c: FieldConfig| slot_of(c)),
                decreases v@.len() - i,
            {
                proof {
                    assert(decreases_to!(*f => f->Group_0));
                    assert(decreases_to!(f->Group_0 => f->Group_0@));
                    assert(decreases_to!(v@ => v@[i as int]));
                    assert(decreases_to!(*f => v@[i as int]));
                }
                collect_slots(&v[i], out);
                proof {
                    let s = v@.take(i as int + 1);
                    assert(s.drop_last() =~= v@.take(i as int));
                    assert(s.last() == v@[i as int]);
                    match v@[i as int] {
                        FieldSet::Item(c) => {
                            assert(leaves_of(s) == leaves_of(v@.take(i as int)).push(c));
                        },
                        FieldSet::Group(w) => {
                            assert(leaves_of(s) == leaves_of(v@.take(i as int)) + leaves_of(w@));
                        },
                    }
                    assert(leaves_of(s).map_values(|c: FieldConfig| slot_of(c)) =~= leaves_of(
                        v@.take(i as int),
                    ).map_values(|c: FieldConfig| slot_of(c)) + layout(v@[i as int]));
                }
                i += 1;
            }
            assert(v@.take(i as int) =~= v@);
        },
    }
}

fn fit_bytes(content: &[u8], w: usize, unit: &Vec<u8>, j: Justify) -> (r: Vec<u8>)
    requires
        unit@.len() > 0,
    ensures
        r@ == fit(content@, w as nat, unit@, j),
{
    let mut r: Vec<u8> = Vec::new();
    if content.len() >= w {
        let mut i: usize = 0;
        while i < w
            invariant
                i <= w <= content@.len(),
                r@ == content@.take(i as int),
            decreases w - i,
        {
            r.push(content[i]);
            i += 1;
            assert(r@ =~= content@.take(i as int));
        }
        return r;
    }
    let n = w - content.len();
    let ghost pad = pad_run(unit@, n as nat);
    if j == Justify::Right {
        push_pad(&mut r, unit, n);
        push_all(&mut r, content);
        assert(r@ =~= pad + content@);
    } else {
        push_all(&mut r, content);
        push_pad(&mut r, unit, n);
        assert(r@ =~= content@ + pad);
    }
    r
}

fn push_all(r: &mut Vec<u8>, content: &[u8])
    ensures
        final(r)@ == old(r)@ + content@,
{
    let mut i: usize = 0;
    while i < content.len()
        invariant
            i <= content@.len(),
            r@ == old(r)@ + content@.take(i as int),
        decreases content@.len() - i,
    {
        r.push(content[i]);
        i += 1;
        assert(r@ =~= old(r)@ + content@.take(i as int));
    }
    assert(content@.take(i as int) =~= content@);
}

fn push_pad(r: &mut Vec<u8>, unit: &Vec<u8>, n: usize)
    requires
        unit@.len() > 0,
    ensures
        final(r)@ == old(r)@ + pad_run(unit@, n as nat),
{
    let mut i: usize = 0;
    while i < n
        invariant
            i <= n,
            unit@.len() > 0,
            r@ == old(r)@ + pad_run(unit@, i as nat),
        decreases n - i,
    {
        r.push(unit[i % unit.len()]);
        i += 1;
        assert(r@ =~= old(r)@ + pad_run(unit@, i as nat));
    }
}

/// `after` is `before` once `content` has been written as the next value, with
/// result `r`: the next slot receives it, or, when none is left, nothing changes
/// and the write fails.
pub open spec fn wrote(before: Serializer, after: Serializer, content: Seq<u8>, r: Result<(), SerializeError>) -> bool {
    &&& after.wf()
    &&& after.spec_slots() == before.spec_slots()
    &&& if before.spec_next() < before.spec_slots().len() {
        &&& r is Ok
        &&& after.spec_next() == before.spec_next() + 1
        &&& after.spec_output() == placed(
            before.spec_output(),
            before.spec_slots()[before.spec_next() as int],
            content,
        )
    } else {
        &&& r matches Err(SerializeError::UnexpectedEndOfRecord)
        &&& after.spec_next() == before.spec_next()
        &&& after.spec_output() == before.spec_output()
    }
}

proof fn lemma_record_len_covers(s: Seq<Slot>)
    ensures
        forall|i: int| 0 <= i < s.len() && slot_width(#[trigger] s[i]) > 0 ==> s[i].end <= record_len(s),
    decreases s.len(),
{
    if s.len() > 0 {
        lemma_record_len_covers(s.drop_last());
        assert forall|i: int| 0 <= i < s.len() && slot_width(#[trigger] s[i]) > 0 implies s[i].end <= record_len(s) by {
            if i < s.len() - 1 {
                assert(s.drop_last()[i] == s[i]);
            }
        }
    }
}

impl Serializer {
    /// The slots of the fields, in the order values are written.
    pub closed spec fn spec_slots(&self) -> Seq<Slot> {
        self.slots@
    }

    /// How many values have been written.
    pub closed spec fn spec_next(&self) -> nat {
        self.next as nat
    }

    /// The record written so far.
    pub closed spec fn spec_output(&self) -> Seq<u8> {
        self.output@
    }

    /// Every slot lies within the record.
    pub closed spec fn wf(&self) -> bool {
        &&& self.next <= self.slots@.len()
        &&& forall|i: int| 0 <= i < self.slots@.len() && slot_width(#[trigger] self.slots@[i]) > 0
            ==> self.slots@[i].end <= self.output@.len()
    }

    /// A writer for the fields of `fields`, over a record of spaces as long as
    /// the largest end of a field.
    pub fn new(fields: FieldSet) -> (r: Serializer)
        ensures
            r.wf(),
            r.spec_slots() == layout(fields),
            r.spec_next() == 0,
            r.spec_output() == Seq::new(record_len(layout(fields)), |i: int| 32u8),
    {
        let mut slots: Vec<Slot> = Vec::new();
        collect_slots(&fields, &mut slots);
        assert(slots@ =~= layout(fields));
        let mut len: usize = 0;
        let mut i: usize = 0;
        while i < slots.len()
            invariant
                i <= slots@.len(),
                len == record_len(slots@.take(i as int)),
            decreases slots@.len() - i,
        {
            let s = slots[i];
            assert(slots@.take(i as int + 1).drop_last() =~= slots@.take(i as int));
            if s.start < s.end && s.end > len {
                len = s.end;
            }
            i += 1;
        }
        assert(slots@.take(i as int) =~= slots@);
        let mut output: Vec<u8> = Vec::new();
        let mut k: usize = 0;
        while k < len
            invariant
                k <= len,
                output@ == Seq::new(k as nat, |i: int| 32u8),
            decreases len - k,
        {
            output.push(32u8);
            k += 1;
            assert(output@ =~= Seq::new(k as nat, |i: int| 32u8));
        }
        proof {
            lemma_record_len_covers(slots@);
        }
        Serializer { slots, next: 0, output }
    }

    /// Writes `content` as the next field: fitted to the field's width and laid
    /// over its range.
    pub fn write_bytes(&mut self, content: &[u8]) -> (r: Result<(), SerializeError>)
        requires
            old(self).wf(),
        ensures
            wrote(*old(self), *final(self), content@, r),
    {
        if self.next >= self.slots.len() {
            return Err(SerializeError::UnexpectedEndOfRecord);
        }
        let s = self.slots[self.next];
        let w: usize = if s.start < s.end {
            s.end - s.start
        } else {
            0
        };
        let unit = char_utf8(s.pad_with);
        let f = fit_bytes(content, w, &unit, s.justify);
        let ghost before = self.output@;
        let mut k: usize = 0;
        while k < w
            invariant
                k <= w == slot_width(s),
                w > 0 ==> s.start + w <= before.len(),
                f@.len() == w,
                self.output@.len() == before.len(),
                self.slots == old(self).slots,
                self.next == old(self).next,
                forall|j: int| 0 <= j < before.len() ==> #[trigger] self.output@[j] == if s.start <= j < s.start + k {
                    f@[j - s.start]
                } else {
                    before[j]
                },
            decreases w - k,
        {
            self.output[s.start + k] = f[k];
            k += 1;
        }
        self.next = self.next + 1;
        assert(self.output@ =~= placed(before, s, content@));
        Ok(())
    }

    /// Writes an absent value: the next field is filled with padding.
    pub fn write_none(&mut self) -> (r: Result<(), SerializeError>)
        requires
            old(self).wf(),
        ensures
            wrote(*old(self), *final(self), Seq::empty(), r),
    {
        let empty: Vec<u8> = Vec::new();
        self.write_bytes(empty.as_slice())
    }

    /// Writes a string as the next field.
    pub fn write_str(&mut self, v: &str) -> (r: Result<(), SerializeError>)
        requires
            old(self).wf(),
        ensures
            wrote(*old(self), *final(self), encode_utf8(v@), r),
    {
        self.write_bytes(v.as_bytes())
    }

    /// Writes a character as the next field.
    pub fn write_char(&mut self, v: char) -> (r: Result<(), SerializeError>)
        requires
            old(self).wf(),
        ensures
            wrote(*old(self), *final(self), encode_utf8(seq![v]), r),
    {
        let b = char_utf8(v);
        self.write_bytes(b.as_slice())
    }

    /// Writes an unsigned integer, in decimal, as the next field.
    pub fn write_u64(&mut self, v: u64) -> (r: Result<(), SerializeError>)
        requires
            old(self).wf(),
        ensures
            wrote(*old(self), *final(self), decimal(v as nat), r),
    {
        let b = decimal_bytes(v);
        self.write_bytes(b.as_slice())
    }

    /// Writes a signed integer, in decimal, as the next field.
    pub fn write_i64(&mut self, v: i64) -> (r: Result<(), SerializeError>)
        requires
            old(self).wf(),
        ensures
            wrote(*old(self), *final(self), signed_decimal(v as int), r),
    {
        let mut b: Vec<u8> = Vec::new();
        let m: u64 = if v < 0 {
            b.push(45u8);
            (-(v as i128)) as u64
        } else {
            v as u64
        };
        let mut d = decimal_bytes(m);
        b.append(&mut d);
        assert(b@ =~= signed_decimal(v as int));
        self.write_bytes(b.as_slice())
    }

    /// Writes a boolean, as `true` or `false`, as the next field.
    pub fn write_bool(&mut self, v: bool) -> (r: Result<(), SerializeError>)
        requires
            old(self).wf(),
        ensures
            wrote(*old(self), *final(self), bool_text(v), r),
    {
        let b: Vec<u8> = if v {
            vec![116u8, 114u8, 117u8, 101u8]
        } else {
            vec![102u8, 97u8, 108u8, 115u8, 101u8]
        };
        assert(b@ =~= bool_text(v));
        self.write_bytes(b.as_slice())
    }

    /// The record written so far.
    pub fn into_bytes(self) -> (r: Vec<u8>)
        ensures
            r@ == self.spec_output(),
    {
        self.output
    }
}

/// `content` as slot `s` lays it out: fitted to the slot's width with its
/// padding and justification.
pub open spec fn fitted(content: Seq<u8>, s: Slot) -> Seq<u8> {
    fit(content, slot_width(s), encode_utf8(seq![s.pad_with]), s.justify)
}

/// `out` once each of `contents` has been written into the slot of the same
/// position, in order.
pub open spec fn write_all(out: Seq<u8>, slots: Seq<Slot>, contents: Seq<Seq<u8>>) -> Seq<u8>
    decreases slots.len(),
{
    if slots.len() == 0 || contents.len() == 0 {
        out
    } else {
        placed(
            write_all(out, slots.drop_last(), contents.drop_last()),
            slots.last(),
            contents.last(),
        )
    }
}

/// Padding: content shorter than the width `w` is followed by `w - len` pad
/// bytes when justified left, and preceded by them when justified right.
pub proof fn lemma_padding(content: Seq<u8>, w: nat, pad: u8)
    requires
        content.len() < w,
    ensures
        fit(content, w, seq![pad], Justify::Left) == content + Seq::new(
            (w - content.len()) as nat,
            |i: int| pad,
        ),
        fit(content, w, seq![pad], Justify::Right) == Seq::new(
            (w - content.len()) as nat,
            |i: int| pad,
        ) + content,
{
    let n = (w - content.len()) as nat;
    assert(pad_run(seq![pad], n) =~= Seq::new(n, |i: int| pad));
}

/// Content exactly as wide as its field is written unchanged, whatever the
/// padding and justification.
pub proof fn lemma_fit_exact(content: Seq<u8>, unit: Seq<u8>, j: Justify)
    ensures
        fit(content, content.len(), unit, j) == content,
{
    assert(content.take(content.len() as int) =~= content);
}

proof fn lemma_write_all_slices(out: Seq<u8>, slots: Seq<Slot>, contents: Seq<Seq<u8>>, input: Seq<u8>)
    requires
        slots.len() == contents.len(),
        forall|i: int| 0 <= i < slots.len() ==> {
            &&& (#[trigger] slots[i]).start <= slots[i].end <= input.len()
            &&& slot_width(slots[i]) > 0 ==> slots[i].end <= out.len()
            &&& fitted(contents[i], slots[i]) == input.subrange(slots[i].start as int, slots[i].end as int)
        },
    ensures
        write_all(out, slots, contents).len() == out.len(),
        forall|i: int, k: int|
            0 <= i < slots.len() && (#[trigger] slots[i]).start <= k < slots[i].end
                ==> #[trigger] write_all(out, slots, contents)[k] == input[k],
    decreases slots.len(),
{
    if slots.len() > 0 {
        let ps = slots.drop_last();
        let pc = contents.drop_last();
        assert forall|i: int| 0 <= i < ps.len() implies {
            &&& (#[trigger] ps[i]).start <= ps[i].end <= input.len()
            &&& slot_width(ps[i]) > 0 ==> ps[i].end <= out.len()
            &&& fitted(pc[i], ps[i]) == input.subrange(ps[i].start as int, ps[i].end as int)
        } by {
            assert(ps[i] == slots[i]);
            assert(pc[i] == contents[i]);
        }
        lemma_write_all_slices(out, ps, pc, input);
        let prev = write_all(out, ps, pc);
        let s = slots.last();
        let c = contents.last();
        assert(slots[slots.len() - 1] == s);
        assert(fitted(c, s) == input.subrange(s.start as int, s.end as int));
        let res = write_all(out, slots, contents);
        assert(res == placed(prev, s, c));
        assert forall|i: int, k: int|
            0 <= i < slots.len() && (#[trigger] slots[i]).start <= k < slots[i].end
                implies #[trigger] res[k] == input[k] by {
            if s.start <= k < s.end {
                assert(res[k] == fitted(c, s)[k - s.start]);
            } else {
                assert(i < slots.len() - 1);
                assert(ps[i] == slots[i]);
                assert(res[k] == prev[k]);
            }
        }
    }
}

/// Round trip: reading every field of a tree as raw bytes, in document order,
/// and writing those bytes back with the same tree gives back the record on
/// every byte that a field covers.
pub proof fn lemma_round_trip_bytes(fields: FieldSet, input: Seq<u8>)
    requires
        forall|i: int|
            0 <= i < leaves(fields).len() ==> range_slice(input, #[trigger] leaves(fields)[i]) is Some,
    ensures
        ({
            let slots = layout(fields);
            let contents = leaves(fields).map_values(|c: FieldConfig| range_slice(input, c)->0);
            let out = write_all(Seq::new(record_len(slots), |i: int| 32u8), slots, contents);
            forall|i: int, k: int|
                0 <= i < slots.len() && (#[trigger] slots[i]).start <= k < slots[i].end
                    ==> #[trigger] out[k] == input[k]
        }),
{
    let slots = layout(fields);
    let contents = leaves(fields).map_values(|c: FieldConfig| range_slice(input, c)->0);
    let out = Seq::new(record_len(slots), |i: int| 32u8);
    lemma_record_len_covers(slots);
    assert forall|i: int| 0 <= i < slots.len() implies {
        &&& (#[trigger] slots[i]).start <= slots[i].end <= input.len()
        &&& slot_width(slots[i]) > 0 ==> slots[i].end <= out.len()
        &&& fitted(contents[i], slots[i]) == input.subrange(slots[i].start as int, slots[i].end as int)
    } by {
        assert(range_slice(input, leaves(fields)[i]) is Some);
        assert(slots[i] == slot_of(leaves(fields)[i]));
        assert(contents[i] == range_slice(input, leaves(fields)[i])->0);
        lemma_fit_exact(contents[i], encode_utf8(seq![slots[i].pad_with]), slots[i].justify);
    }
    lemma_write_all_slices(out, slots, contents, input);
}

/// Text round trip: when every field of a tree holds valid text already in the
/// form the writer gives it (its trimmed text, padded and justified as the
/// field says), reading every field as text and writing those texts back with
/// the same tree gives back the record on every byte that a field covers.
pub proof fn lemma_round_trip_text(fields: FieldSet, input: Seq<u8>)
    requires
        forall|i: int| 0 <= i < leaves(fields).len() ==> {
            let b = range_slice(input, #[trigger] leaves(fields)[i]);
            &&& b is Some
            &&& valid_utf8(b->0)
            &&& fitted(encode_utf8(field_text(b->0)), slot_of(leaves(fields)[i])) == b->0
        },
    ensures
        ({
            let slots = layout(fields);
            let contents = leaves(fields).map_values(
                |c: FieldConfig| encode_utf8(field_text(range_slice(input, c)->0)),
            );
            let out = write_all(Seq::new(record_len(slots), |i: int| 32u8), slots, contents);
            forall|i: int, k: int|
                0 <= i < slots.len() && (#[trigger] slots[i]).start <= k < slots[i].end
                    ==> #[trigger] out[k] == input[k]
        }),
{
    let slots = layout(fields);
    let contents = leaves(fields).map_values(
        |c: FieldConfig| encode_utf8(field_text(range_slice(input, c)->0)),
    );
    let out = Seq::new(record_len(slots), |i: int| 32u8);
    lemma_record_len_covers(slots);
    assert forall|i: int| 0 <= i < slots.len() implies {
        &&& (#[trigger] slots[i]).start <= slots[i].end <= input.len()
        &&& slot_width(slots[i]) > 0 ==> slots[i].end <= out.len()
        &&& fitted(contents[i], slots[i]) == input.subrange(slots[i].start as int, slots[i].end as int)
    } by {
        assert(range_slice(input, leaves(fields)[i]) is Some);
        assert(slots[i] == slot_of(leaves(fields)[i]));
    }
    lemma_write_all_slices(out, slots, contents, input);
}

} // verus!
