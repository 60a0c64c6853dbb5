use vstd::prelude::*;
use crate::field::{FieldConfig, FieldSet, Justify};
use crate::text::{int_text, parse_u64, trim_str, trimmed};

verus! {

/// Why the attributes of a field do not describe a field.
#[derive(Debug, PartialEq, Eq, Structural)]
pub enum AttributeError {
    /// No byte range was given.
    MissingRange,
    /// The byte range is not written `start..end` with two unsigned integers.
    InvalidRange,
    /// The padding is not a single character.
    InvalidPadding,
    /// The justification is neither `left` nor `right`.
    InvalidJustify,
}

/// `s` holds `..` at position `p`.
pub open spec fn dots_at(s: Seq<char>, p: int) -> bool {
    0 <= p && p + 1 < s.len() && s[p] == '.' && s[p + 1] == '.'
}

/// The two bounds of a range written `start..end`, split at the first `..`.
pub open spec fn range_text(s: Seq<char>) -> Option<(int, int)> {
    if exists|p: int| dots_at(s, p) {
        let p = choose|p: int| dots_at(s, p) && forall|q: int| 0 <= q < p ==> !dots_at(s, q);
        match (int_text(s.take(p), false), int_text(s.skip(p + 2), false)) {
            (Some(a), Some(b)) => if a <= usize::MAX && b <= usize::MAX {
                Some((a, b))
            } else {
                None
            },
            _ => None,
        }
    } else {
        None
    }
}

/// `c` is the lower-case ASCII letter `w`, in either case, or `w` itself.
pub open spec fn same_letter(c: char, w: char) -> bool {
    c == w || ('a' <= w <= 'z' && c as u32 + 32 == w as u32)
}

/// `s` spells the lower-case word `w`, ignoring ASCII case.
pub open spec fn word_is(s: Seq<char>, w: Seq<char>) -> bool {
    s.len() == w.len() && forall|i: int| 0 <= i < s.len() ==> same_letter(#[trigger] s[i], w[i])
}

/// The justification named by `s`: `left` or `right` in any ASCII case, with
/// white space around it allowed.
pub open spec fn justify_text(s: Seq<char>) -> Option<Justify> {
    if word_is(trimmed(s), seq!['l', 'e', 'f', 't']) {
        Some(Justify::Left)
    } else if word_is(trimmed(s), seq!['r', 'i', 'g', 'h', 't']) {
        Some(Justify::Right)
    } else {
        None
    }
}

fn spells(s: &str, w: &[char]) -> (r: bool)
    ensures
        r == word_is(s@, w@),
{
    let n = s.unicode_len();
    if n != w.len() {
        return false;
    }
    let mut i: usize = 0;
    while i < n
        invariant
            n == s@.len() == w@.len(),
            i <= n,
            forall|k: int| 0 <= k < i ==> same_letter(#[trigger] s@[k], w@[k]),
        decreases n - i,
    {
        let c = s.get_char(i);
        let x = w[i];
        let lower = 'a' <= x && x <= 'z';
        if !(c == x || (lower && (c as u32) + 32 == x as u32)) {
            return false;
        }
        i += 1;
    }
    true
}

/// Reads a justification: `left` or `right`, in any ASCII case.
pub fn parse_justify(s: &str) -> (r: Option<Justify>)
    ensures
        r == justify_text(s@),
{
    let t = trim_str(s);
    if spells(t, &['l', 'e', 'f', 't']) {
        Some(Justify::Left)
    } else if spells(t, &['r', 'i', 'g', 'h', 't']) {
        Some(Justify::Right)
    } else {
        None
    }
}

/// Reads a byte range written `start..end`.
pub fn parse_range(s: &str) -> (r: Option<std::ops::Range<usize>>)
    ensures
        match range_text(s@) {
            Some((a, b)) => r is Some && r->0.start == a && r->0.end == b,
            None => r is None,
        },
{
    let n = s.unicode_len();
    let mut p: usize = 0;
    let mut found: bool = false;
    while !found && p < n
        invariant
            n == s@.len(),
            p <= n,
            found ==> dots_at(s@, p as int),
            forall|q: int| 0 <= q < p ==> !dots_at(s@, q),
        decreases (n - p) as int + if found { 0int } else { 1int },
    {
        if p + 1 < n && s.get_char(p) == '.' && s.get_char(p + 1) == '.' {
            found = true;
        } else {
            p += 1;
        }
    }
    if !found {
        assert(!exists|q: int| dots_at(s@, q));
        return None;
    }
    assert(dots_at(s@, p as int));
    let ghost chosen = choose|q: int| dots_at(s@, q) && forall|k: int| 0 <= k < q ==> !dots_at(s@, k);
    proof {
        assert(dots_at(s@, p as int) && forall|k: int| 0 <= k < p ==> !dots_at(s@, k));
        assert(chosen == p) by {
            if chosen < p {
            } else if chosen > p {
            }
        }
    }
    let head = s.substring_char(0, p);
    let tail = s.substring_char(p + 2, n);
    assert(head@ =~= s@.take(p as int));
    assert(tail@ =~= s@.skip(p as int + 2));
    let start = match parse_u64(head) {
        Ok(v) => v,
        Err(_) => return None,
    };
    let end = match parse_u64(tail) {
        Ok(v) => v,
        Err(_) => return None,
    };
    if start > usize::MAX as u64 || end > usize::MAX as u64 {
        return None;
    }
    Some(start as usize..end as usize)
}

/// The field that a structure's field attributes describe: `range` (required,
/// `start..end`), `pad_with` (one character, a space when absent), `justify`
/// (`left` or `right`, left when absent) and `name` (the field's own identifier
/// when absent).
pub fn field_from_attributes(
    ident: &str,
    range: Option<&str>,
    pad_with: Option<&str>,
    justify: Option<&str>,
    name: Option<&str>,
) -> (r: Result<FieldSet, AttributeError>)
    ensures
        range is None ==> r == Err::<FieldSet, AttributeError>(AttributeError::MissingRange),
        range is Some && range_text(range->0@) is None ==> r == Err::<FieldSet, AttributeError>(
            AttributeError::InvalidRange,
        ),
        range is Some && range_text(range->0@) is Some ==> {
            let (a, b) = range_text(range->0@)->0;
            if pad_with is Some && pad_with->0@.len() != 1 {
                r == Err::<FieldSet, AttributeError>(AttributeError::InvalidPadding)
            } else if justify is Some && justify_text(justify->0@) is None {
                r == Err::<FieldSet, AttributeError>(AttributeError::InvalidJustify)
            } else {
                &&& r is Ok
                &&& r->Ok_0 is Item
                &&& r->Ok_0->Item_0.range.start == a
                &&& r->Ok_0->Item_0.range.end == b
                &&& r->Ok_0->Item_0.name is Some
                &&& r->Ok_0->Item_0.name->0@ == match name {
                    Some(m) => m@,
                    None => ident@,
                }
                &&& r->Ok_0->Item_0.pad_with == match pad_with {
                    Some(p) => p@[0],
                    None => ' ',
                }
                &&& r->Ok_0->Item_0.justify == match justify {
                    Some(j) => justify_text(j@)->0,
                    None => Justify::Left,
                }
            }
        },
{
    let label = match name {
        Some(m) => m.to_owned(),
        None => ident.to_owned(),
    };
    let rg = match range {
        Some(t) => match parse_range(t) {
            Some(rg) => rg,
            None => return Err(AttributeError::InvalidRange),
        },
        None => return Err(AttributeError::MissingRange),
    };
    let pad = match pad_with {
        Some(p) => {
            if p.unicode_len() != 1 {
                return Err(AttributeError::InvalidPadding);
            }
            p.get_char(0)
        },
        None => ' ',
    };
    let side = match justify {
        Some(j) => match parse_justify(j) {
            Some(side) => side,
            None => return Err(AttributeError::InvalidJustify),
        },
        None => Justify::Left,
    };
    Ok(FieldSet::Item(FieldConfig { range: rg, name: Some(label), pad_with: pad, justify: side }))
}

} // verus!
