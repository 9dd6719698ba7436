//! Span attributes: how many rows and columns a cell claims.
//!
//! A span is a positive number. An attribute that is missing, or whose text is
//! not a positive decimal number that fits `usize`, counts as 1.

use vstd::prelude::*;
use vstd::std_specs::iter::IteratorSpec;

use sxd_document::dom::Element;

use crate::outside::attribute_value;

verus! {

/// Whether `c` is one of the ten decimal digits.
pub open spec fn is_digit(c: char) -> bool {
    '0' <= c <= '9'
}

/// The number that a sequence of decimal digits writes.
pub open spec fn decimal(digits: Seq<char>) -> nat
    decreases digits.len(),
{
    if digits.len() == 0 {
        0
    } else {
        (decimal(digits.drop_last()) * 10 + (digits.last() as nat - '0' as nat)) as nat
    }
}

/// The text without one leading plus sign.
pub open spec fn unsigned(text: Seq<char>) -> Seq<char> {
    if text.len() > 0 && text[0] == '+' {
        text.drop_first()
    } else {
        text
    }
}

/// Whether the text writes a number: an optional plus sign, then one digit
/// or more and nothing else.
pub open spec fn is_number(text: Seq<char>) -> bool {
    &&& unsigned(text).len() > 0
    &&& forall|i: int| 0 <= i < unsigned(text).len() ==> is_digit(#[trigger] unsigned(text)[i])
}

/// The span that an attribute gives: its number where it writes one that is
/// positive and fits `usize`, and 1 otherwise.
pub open spec fn span_value(attr: Option<Seq<char>>) -> int {
    match attr {
        Some(text) => if is_number(text) && 0 < decimal(unsigned(text)) <= usize::MAX {
            decimal(unsigned(text)) as int
        } else {
            1
        },
        None => 1,
    }
}

/// The number that `text` writes, if it writes one that fits `usize`.
fn parse_number(text: &str) -> (res: Option<usize>)
    ensures
        res is Some <==> is_number(text@) && decimal(unsigned(text@)) <= usize::MAX,
        res matches Some(n) ==> n == decimal(unsigned(text@)),
{
    broadcast use vstd::string::group_string_axioms;

    let mut chars = text.chars();
    let ghost mut seen: Seq<char> = Seq::empty();
    let mut first = true;
    let mut digits: usize = 0;
    let mut value: Option<usize> = Some(0);
    let ghost mut signed = false;
    loop
        invariant
            chars.obeys_prophetic_iter_laws(),
            chars.decrease() is Some,
            seen + chars.remaining() == text@,
            first <==> seen.len() == 0,
            signed <==> seen.len() > 0 && seen[0] == '+',
            unsigned(seen).len() > 0 <==> digits > 0,
            forall|i: int| 0 <= i < unsigned(seen).len() ==> is_digit(#[trigger] unsigned(seen)[i]),
            value is Some <==> decimal(unsigned(seen)) <= usize::MAX,
            value matches Some(n) ==> n == decimal(unsigned(seen)),
        decreases chars.decrease()->0,
    {
        let ghost before = chars;
        match chars.next() {
            None => {
                proof {
                    assert(chars.remaining().len() == 0);
                    assert(seen =~= text@);
                }
                if digits == 0 {
                    return None;
                }
                return value;
            },
            Some(c) => {
                let ghost longer = seen.push(c);
                proof {
                    assert(longer + chars.remaining() =~= seen + before.remaining());
                }
                if first && c == '+' {
                    proof {
                        assert(unsigned(longer) =~= Seq::empty());
                        signed = true;
                    }
                } else if '0' <= c && c <= '9' {
                    proof {
                        assert(unsigned(longer) =~= unsigned(seen).push(c));
                        assert(unsigned(longer).drop_last() =~= unsigned(seen));
                    }
                    let digit = (c as u32 - '0' as u32) as usize;
                    value = match value {
                        Some(n) => match n.checked_mul(10) {
                            Some(m) => m.checked_add(digit),
                            None => None,
                        },
                        None => None,
                    };
                    if digits == 0 {
                        digits = 1;
                    }
                } else {
                    proof {
                        let at = seen.len() as int;
                        assert(text@[at] == c);
                        if signed {
                            assert(unsigned(text@)[at - 1] == c);
                        } else {
                            assert(unsigned(text@)[at] == c);
                        }
                    }
                    return None;
                }
                first = false;
                proof {
                    seen = longer;
                }
            },
        }
    }
}

/// The text of an attribute as a sequence of characters, where there is one.
pub open spec fn attr_view(attr: Option<&str>) -> Option<Seq<char>> {
    match attr {
        Some(text) => Some(text@),
        None => None,
    }
}

/// The span that an attribute gives. A missing attribute, and one that does
/// not write a positive number that fits `usize`, give 1: a malformed span
/// is never an error.
pub fn span_of(attr: Option<&str>) -> (span: usize)
    ensures
        span == span_value(attr_view(attr)),
        span >= 1,
{
    match attr {
        Some(text) => match parse_number(text) {
            Some(n) => if n == 0 {
                1
            } else {
                n
            },
            None => 1,
        },
        None => 1,
    }
}

/// The span that the attribute `name` of `element` gives.
fn extract_span(element: Element, name: &str) -> (span: usize)
    ensures
        span >= 1,
{
    span_of(attribute_value(element, name))
}

/// The row span and the column span of a cell element, read from its
/// `rowspan` and `colspan` attributes by the rule of [`span_of`]. Both are
/// positive whatever the attributes hold.
pub fn extract_rowspan_and_colspan(element: Element) -> (spans: (usize, usize))
    ensures
        spans.0 >= 1,
        spans.1 >= 1,
{
    let rowspan = extract_span(element, "rowspan");
    let colspan = extract_span(element, "colspan");
    (rowspan, colspan)
}

/// A missing attribute, and one whose text writes no number, give the span
/// 1: they count as if the attribute were `1`.
pub proof fn lemma_malformed_span_is_one(attr: Option<Seq<char>>)
    requires
        attr matches Some(text) ==> !is_number(text),
    ensures
        span_value(attr) == 1,
        span_value(attr) == span_value(Some(seq!['1'])),
{
    let one = seq!['1'];
    assert(unsigned(one) == one);
    assert(is_number(one));
    assert(one.drop_last() =~= Seq::empty());
    assert(decimal(one.drop_last()) == 0);
    assert(decimal(one) == 1);
}

} // verus!
