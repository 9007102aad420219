use vstd::prelude::*;
use crate::text::chars_of;

verus! {

/// A hexadecimal number of two or four digits.
#[derive(Debug, Clone, Copy, PartialEq, Eq, Structural)]
pub enum Number {
    Byte(u8),
    Short(u16),
}

/// A lowercase hexadecimal digit.
pub open spec fn is_nibble(c: char) -> bool {
    ('0' <= c && c <= '9') || ('a' <= c && c <= 'f')
}

pub open spec fn nibble_value(c: char) -> nat {
    if '0' <= c && c <= '9' {
        (c as int - '0' as int) as nat
    } else {
        (c as int - 'a' as int + 10) as nat
    }
}

pub open spec fn all_nibbles(s: Seq<char>) -> bool {
    forall|i: int| 0 <= i < s.len() ==> is_nibble(#[trigger] s[i])
}

/// The value of a string of hexadecimal digits.
pub open spec fn hex_value(s: Seq<char>) -> nat
    decreases s.len(),
{
    if s.len() == 0 {
        0
    } else {
        hex_value(s.drop_last()) * 16 + nibble_value(s.last())
    }
}

/// The number that `s` spells: two lowercase hex digits give a byte, four give a short.
pub open spec fn hex_number(s: Seq<char>) -> Option<Number> {
    if !all_nibbles(s) {
        None
    } else if s.len() == 2 {
        Some(Number::Byte(hex_value(s) as u8))
    } else if s.len() == 4 {
        Some(Number::Short(hex_value(s) as u16))
    } else {
        None
    }
}

/// The padding amount that `s` spells: one to four lowercase hex digits.
pub open spec fn hex_padding(s: Seq<char>) -> Option<u16> {
    if s.len() == 0 || s.len() > 4 || !all_nibbles(s) {
        None
    } else {
        Some(hex_value(s) as u16)
    }
}

/// Sixteen to the power `n`: one more than the largest value of `n` hex digits.
pub open spec fn hex_bound(n: nat) -> nat
    decreases n,
{
    if n == 0 {
        1
    } else {
        16 * hex_bound((n - 1) as nat)
    }
}

pub proof fn lemma_hex_value_bound(s: Seq<char>)
    requires
        all_nibbles(s),
    ensures
        hex_value(s) < hex_bound(s.len()),
    decreases s.len(),
{
    if s.len() > 0 {
        assert(all_nibbles(s.drop_last()));
        lemma_hex_value_bound(s.drop_last());
        assert(is_nibble(s[s.len() - 1]));
    }
}

proof fn lemma_hex_bounds()
    ensures
        hex_bound(2) == 256,
        hex_bound(3) == 4096,
        hex_bound(4) == 65536,
{
    reveal_with_fuel(hex_bound, 5);
}

pub fn is_nibble_char(c: char) -> (result: bool)
    ensures
        result == is_nibble(c),
{
    ('0' <= c && c <= '9') || ('a' <= c && c <= 'f')
}

/// Reads `chars` as hexadecimal digits, if they all are and there are at most four.
fn hex_digits_value(chars: &[char]) -> (value: Option<u16>)
    ensures
        value matches Some(v) ==> all_nibbles(chars@) && chars@.len() <= 4 && v == hex_value(chars@),
        value is None ==> !all_nibbles(chars@) || chars@.len() > 4,
{
    if chars.len() > 4 {
        return None;
    }
    let mut value: u32 = 0;
    let mut index: usize = 0;
    while index < chars.len()
        invariant
            chars@.len() <= 4,
            index <= chars@.len(),
            all_nibbles(chars@.subrange(0, index as int)),
            value == hex_value(chars@.subrange(0, index as int)),
            value < hex_bound(index as nat),
        decreases chars@.len() - index,
    {
        let c = chars[index];
        if !is_nibble_char(c) {
            assert(!all_nibbles(chars@));
            return None;
        }
        let digit: u32 = if '0' <= c && c <= '9' { (c as u32) - ('0' as u32) } else { (c as u32) - ('a' as u32) + 10 };
        proof {
            lemma_hex_bounds();
            assert(hex_bound((index + 1) as nat) == 16 * hex_bound(index as nat));
            assert(hex_bound(index as nat) <= 4096) by {
                reveal_with_fuel(hex_bound, 4);
            }
        }
        value = value * 16 + digit;
        index += 1;
        assert(chars@.subrange(0, index as int).drop_last() == chars@.subrange(0, index - 1));
    }
    assert(chars@.subrange(0, chars@.len() as int) == chars@);
    assert(hex_bound(chars@.len()) <= 65536) by {
        reveal_with_fuel(hex_bound, 5);
    }
    Some(value as u16)
}

impl Number {
    /// Parses exactly two or four lowercase hexadecimal digits.
    pub fn from_hex(hex_string: &str) -> (number: Option<Self>)
        ensures
            number == hex_number(hex_string@),
    {
        let chars = chars_of(hex_string);
        match hex_digits_value(chars.as_slice()) {
            Some(value) => {
                if chars.len() == 2 {
                    proof {
                        lemma_hex_value_bound(chars@);
                        lemma_hex_bounds();
                    }
                    Some(Number::Byte(value as u8))
                } else if chars.len() == 4 {
                    Some(Number::Short(value))
                } else {
                    None
                }
            },
            None => None,
        }
    }

    /// Parses a padding amount of one to four lowercase hexadecimal digits.
    pub fn from_hex_padding(hex_string: &str) -> (amount: Option<u16>)
        ensures
            amount == hex_padding(hex_string@),
    {
        let chars = chars_of(hex_string);
        if chars.len() == 0 {
            return None;
        }
        hex_digits_value(chars.as_slice())
    }

    pub open spec fn short_value(self) -> u16 {
        match self {
            Number::Byte(value) => value as u16,
            Number::Short(value) => value,
        }
    }

    pub fn as_short(&self) -> (value: u16)
        ensures
            value == self.short_value(),
    {
        match *self {
            Number::Byte(value) => value as u16,
            Number::Short(value) => value,
        }
    }
}

} // verus!
