//! Strings as sequences of characters.

use vstd::prelude::*;
use vstd::string::StringSliceAdditionalSpecFns;
use vstd::utf8::{encode_scalar, encode_utf8};

verus! {

/// `String::push` appends the given character to the end of the string.
pub assume_specification[ std::string::String::push ](text: &mut std::string::String, ch: char)
    ensures
        final(text)@ == old(text)@.push(ch),
;

/// The characters of `text`, in order.
pub(crate) fn chars_of(text: &str) -> (r: Vec<char>)
    ensures
        r@ == text@,
{
    let mut out: Vec<char> = Vec::new();
    for c in iter: text.chars()
        invariant
            out@ == iter.seq().take(iter.index() as int),
            iter.seq() == text@,
    {
        out.push(c);
        assert(out@ =~= iter.seq().take(iter.index() + 1));
    }
    out
}

/// The string that spells `chars[from..to]`.
pub(crate) fn string_of(chars: &Vec<char>, from: usize, to: usize) -> (r: String)
    requires
        from <= to <= chars.len(),
    ensures
        r@ == chars@.subrange(from as int, to as int),
{
    let mut out = String::new();
    let mut i: usize = from;
    while i < to
        invariant
            from <= i <= to <= chars.len(),
            out@ == chars@.subrange(from as int, i as int),
        decreases to - i,
    {
        out.push(chars[i]);
        assert(out@ =~= chars@.subrange(from as int, i + 1));
        i += 1;
    }
    out
}

/// Whether `c` is one of the ten ASCII digits.
pub open spec fn is_digit(c: char) -> bool {
    '0' <= c <= '9'
}

/// What the digit `c` counts.
pub open spec fn digit_value(c: char) -> nat {
    (c as u32 - '0' as u32) as nat
}

/// Whether every character of `text` is a digit.
pub open spec fn all_digits(text: Seq<char>) -> bool {
    forall|i: int| 0 <= i < text.len() ==> is_digit(#[trigger] text[i])
}

/// The number that the digits of `text` spell in base ten.
pub open spec fn decimal_value(text: Seq<char>) -> nat
    decreases text.len(),
{
    if text.len() == 0 {
        0
    } else {
        decimal_value(text.drop_last()) * 10 + digit_value(text.last())
    }
}

/// The integer that `text` spells: an optional sign, then one or more
/// digits, the whole within the range of `i64`. `None` for any other text.
pub open spec fn parsed_int(text: Seq<char>) -> Option<i64> {
    let signed = text.len() > 0 && (text[0] == '-' || text[0] == '+');
    let digits = if signed {
        text.drop_first()
    } else {
        text
    };
    if digits.len() == 0 || !all_digits(digits) {
        None
    } else {
        let magnitude = decimal_value(digits);
        let number = if text[0] == '-' {
            -magnitude
        } else {
            magnitude as int
        };
        if i64::MIN <= number <= i64::MAX {
            Some(number as i64)
        } else {
            None
        }
    }
}

/// Reads `chars[from..to]` as an integer.
pub(crate) fn parse_i64(chars: &Vec<char>, from: usize, to: usize) -> (r: Option<i64>)
    requires
        from <= to <= chars.len(),
    ensures
        r == parsed_int(chars@.subrange(from as int, to as int)),
{
    let ghost text = chars@.subrange(from as int, to as int);
    if from == to {
        return None;
    }
    let negative = chars[from] == '-';
    let start: usize = if chars[from] == '-' || chars[from] == '+' {
        from + 1
    } else {
        from
    };
    let ghost digits = chars@.subrange(start as int, to as int);
    assert(text[0] == chars[from as int]);
    assert(digits =~= if start > from {
        text.drop_first()
    } else {
        text
    });
    if start == to {
        return None;
    }
    let limit: u64 = 0x8000_0000_0000_0000;
    let mut acc: u64 = 0;
    let mut overflow = false;
    let mut i: usize = start;
    while i < to
        invariant
            start <= i <= to <= chars.len(),
            from <= start,
            text == chars@.subrange(from as int, to as int),
            digits == chars@.subrange(start as int, to as int),
            digits == if start > from {
                text.drop_first()
            } else {
                text
            },
            start > from <==> text[0] == '-' || text[0] == '+',
            negative <==> text[0] == '-',
            limit == 0x8000_0000_0000_0000,
            forall|j: int| 0 <= j < i - start ==> is_digit(#[trigger] digits[j]),
            !overflow ==> acc == decimal_value(digits.take(i - start)) && acc <= limit,
            overflow ==> decimal_value(digits.take(i - start)) > limit,
        decreases to - i,
    {
        let c = chars[i];
        assert(digits[i - start] == c);
        if !(c >= '0' && c <= '9') {
            assert(!is_digit(digits[i - start]));
            return None;
        }
        let d: u64 = (c as u32 - '0' as u32) as u64;
        assert(digits.take(i - start + 1).drop_last() =~= digits.take(i - start));
        assert(digits.take(i - start + 1).last() == c);
        if !overflow {
            if acc > (limit - d) / 10 {
                overflow = true;
            } else {
                acc = acc * 10 + d;
            }
        }
        i += 1;
    }
    assert(digits.take(to - start) =~= digits);
    assert(all_digits(digits));
    if overflow {
        None
    } else if negative {
        if acc == limit {
            Some(i64::MIN)
        } else {
            Some(-(acc as i64))
        }
    } else if acc == limit {
        None
    } else {
        Some(acc as i64)
    }
}


/// How many bytes the UTF-8 form of `c` takes.
pub open spec fn utf8_width(c: char) -> nat {
    if (c as u32) < 0x80 {
        1
    } else if (c as u32) < 0x800 {
        2
    } else if (c as u32) < 0x10000 {
        3
    } else {
        4
    }
}

/// How many bytes the UTF-8 form of the first `pos` characters of `text`
/// takes: the byte offset of the character at `pos`.
pub open spec fn byte_offset(text: Seq<char>, pos: int) -> nat
    decreases pos,
{
    if pos <= 0 || pos > text.len() {
        0
    } else {
        byte_offset(text, pos - 1) + utf8_width(text[pos - 1])
    }
}

/// The byte offsets add up to the length of the UTF-8 form.
pub proof fn lemma_byte_offset_is_encoded_len(text: Seq<char>, pos: int)
    requires
        0 <= pos <= text.len(),
    ensures
        byte_offset(text, pos) == encode_utf8(text.take(pos)).len(),
    decreases pos,
{
    if pos > 0 {
        lemma_byte_offset_is_encoded_len(text, pos - 1);
        lemma_encode_push(text.take(pos - 1), text[pos - 1]);
        assert(text.take(pos - 1).push(text[pos - 1]) =~= text.take(pos));
    } else {
        assert(text.take(0) =~= Seq::<char>::empty());
    }
}

/// One more character adds its width to the length of the UTF-8 form.
proof fn lemma_encode_push(text: Seq<char>, c: char)
    ensures
        encode_utf8(text.push(c)).len() == encode_utf8(text).len() + utf8_width(c),
    decreases text.len(),
{
    vstd::utf8::char_is_scalar(c);
    if text.len() == 0 {
        assert(text.push(c).drop_first() =~= Seq::<char>::empty());
        assert(encode_utf8(text.push(c)) =~= encode_scalar(c as u32) + encode_utf8(
            Seq::<char>::empty(),
        ));
    } else {
        lemma_encode_push(text.drop_first(), c);
        assert(text.push(c).drop_first() =~= text.drop_first().push(c));
        assert(text.push(c)[0] == text[0]);
    }
}

/// The byte offset of every character of `text`, and of its end.
pub(crate) fn byte_offsets(text: &str, chars: &Vec<char>) -> (r: Vec<usize>)
    requires
        chars@ == text@,
    ensures
        r@.len() == chars@.len() + 1,
        forall|i: int| 0 <= i <= chars@.len() ==> #[trigger] r@[i] == byte_offset(chars@, i),
{
    let total = text.as_bytes().len();
    proof {
        lemma_byte_offset_is_encoded_len(chars@, chars@.len() as int);
        assert(chars@.take(chars@.len() as int) =~= chars@);
    }
    let mut out: Vec<usize> = Vec::new();
    out.push(0);
    let mut i: usize = 0;
    while i < chars.len()
        invariant
            i <= chars.len(),
            out@.len() == i + 1,
            total == byte_offset(chars@, chars@.len() as int),
            forall|j: int| 0 <= j <= i ==> #[trigger] out@[j] == byte_offset(chars@, j),
        decreases chars.len() - i,
    {
        proof {
            lemma_byte_offset_grows(chars@, i + 1, chars@.len() as int);
        }
        let c = chars[i] as u32;
        let width: usize = if c < 0x80 {
            1
        } else if c < 0x800 {
            2
        } else if c < 0x10000 {
            3
        } else {
            4
        };
        let next = out[i] + width;
        out.push(next);
        i += 1;
    }
    out
}

/// A later character has no smaller byte offset.
pub proof fn lemma_byte_offset_grows(text: Seq<char>, a: int, b: int)
    requires
        0 <= a <= b <= text.len(),
    ensures
        byte_offset(text, a) <= byte_offset(text, b),
    decreases b - a,
{
    if a < b {
        lemma_byte_offset_grows(text, a, b - 1);
    }
}

} // verus!
