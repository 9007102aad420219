use vstd::prelude::*;

verus! {

/// The characters of `s`, in order.
pub fn chars_of(s: &str) -> (chars: Vec<char>)
    ensures
        chars@ == s@,
{
    let mut chars: Vec<char> = Vec::new();
    for c in iter: s.chars()
        invariant
            chars@ == iter.seq().take(iter.index() as int),
    {
        chars.push(c);
    }
    chars
}

/// Appends one character to `s` with `String::push`, trusted to leave the text before it as it
/// was and add `c` at the end.
#[verifier::external_body]
pub(crate) fn push_char(s: &mut String, c: char)
    ensures
        final(s)@ == old(s)@.push(c),
{
    s.push(c);
}

/// Appends `t` to `s`.
pub fn push_str(s: &mut String, t: &str)
    ensures
        final(s)@ == old(s)@ + t@,
{
    s.append(t);
}

/// Appends the characters of `chars` to `s`.
pub fn push_chars(s: &mut String, chars: &[char])
    ensures
        final(s)@ == old(s)@ + chars@,
{
    let mut index: usize = 0;
    while index < chars.len()
        invariant
            index <= chars@.len(),
            s@ == old(s)@ + chars@.subrange(0, index as int),
        decreases chars@.len() - index,
    {
        push_char(s, chars[index]);
        index += 1;
        assert(chars@.subrange(0, index as int) == chars@.subrange(0, index - 1).push(chars@[index - 1]));
    }
    assert(chars@.subrange(0, chars@.len() as int) == chars@);
}

/// A string holding exactly `chars`.
pub fn string_from_chars(chars: &[char]) -> (s: String)
    ensures
        s@ == chars@,
{
    let mut s = String::new();
    push_chars(&mut s, chars);
    s
}

/// The lowercase hexadecimal digit for `value` (0..=15).
pub open spec fn hex_digit(value: int) -> char {
    if value < 10 {
        ('0' as int + value) as char
    } else {
        ('a' as int + value - 10) as char
    }
}

/// `value` written with `width` lowercase hexadecimal digits (zero-padded, most significant first).
pub open spec fn hex_text(value: nat, width: nat) -> Seq<char>
    decreases width,
{
    if width == 0 {
        seq![]
    } else {
        hex_text(value / 16, (width - 1) as nat).push(hex_digit((value % 16) as int))
    }
}

/// The decimal digits of `value`, most significant first, without leading zeros ("0" for zero).
pub open spec fn decimal_text(value: nat) -> Seq<char>
    decreases value,
{
    if value < 10 {
        seq![('0' as int + value) as char]
    } else {
        decimal_text(value / 10).push(('0' as int + value % 10) as char)
    }
}

pub fn hex_digit_char(value: u8) -> (c: char)
    requires
        value < 16,
    ensures
        c == hex_digit(value as int),
{
    if value < 10 {
        ((48u8 + value) as char)
    } else {
        ((97u8 + value - 10) as char)
    }
}

/// Appends `value` as `width` lowercase hexadecimal digits.
pub fn push_hex(s: &mut String, value: u64, width: usize)
    requires
        width <= 16,
    ensures
        final(s)@ == old(s)@ + hex_text(value as nat, width as nat),
    decreases width,
{
    if width == 0 {
        return;
    }
    push_hex(s, value / 16, width - 1);
    push_char(s, hex_digit_char((value % 16) as u8));
}

/// Appends the decimal digits of `value`.
pub fn push_decimal(s: &mut String, value: usize)
    ensures
        final(s)@ == old(s)@ + decimal_text(value as nat),
    decreases value,
{
    if value >= 10 {
        push_decimal(s, value / 10);
    }
    push_char(s, ((48u8 + (value % 10) as u8) as char));
}

/// The number of decimal digits of `value`.
pub fn decimal_len(value: usize) -> (len: usize)
    ensures
        len == decimal_text(value as nat).len(),
        1 <= len,
    decreases value,
{
    if value < 10 {
        1
    } else {
        proof { lemma_decimal_len_bound(value as nat); }
        decimal_len(value / 10) + 1
    }
}

proof fn lemma_decimal_len_bound(value: nat)
    ensures
        1 <= decimal_text(value).len(),
        decimal_text(value).len() <= (if value == 0 { 1 } else { value }),
    decreases value,
{
    if value >= 10 {
        lemma_decimal_len_bound(value / 10);
    }
}

/// Appends `count` copies of `c`.
pub fn push_repeated(s: &mut String, c: char, count: usize)
    ensures
        final(s)@ == old(s)@ + Seq::new(count as nat, |i: int| c),
{
    let mut index: usize = 0;
    while index < count
        invariant
            index <= count,
            s@ == old(s)@ + Seq::new(index as nat, |i: int| c),
        decreases count - index,
    {
        push_char(s, c);
        index += 1;
        assert(Seq::new(index as nat, |i: int| c) == Seq::new((index - 1) as nat, |i: int| c).push(c));
    }
}

/// `n` spaces.
pub open spec fn spaces(n: nat) -> Seq<char> {
    Seq::new(n, |i: int| ' ')
}

/// `text` right-aligned in a field of `width` characters.
pub open spec fn pad_left(text: Seq<char>, width: nat) -> Seq<char> {
    if text.len() < width {
        spaces((width - text.len()) as nat) + text
    } else {
        text
    }
}

/// Appends the decimal digits of `value`, right-aligned in a field of `width` characters.
pub fn push_decimal_padded(s: &mut String, value: usize, width: usize)
    ensures
        final(s)@ == old(s)@ + pad_left(decimal_text(value as nat), width as nat),
{
    let digits = decimal_len(value);
    if digits < width {
        push_repeated(s, ' ', width - digits);
    }
    push_decimal(s, value);
}

/// Whether two strings hold the same characters.
pub fn text_eq(a: &str, b: &str) -> (equal: bool)
    ensures
        equal == (a@ == b@),
{
    let a_chars = chars_of(a);
    let b_chars = chars_of(b);
    chars_eq(a_chars.as_slice(), b_chars.as_slice())
}

/// Whether two character slices are equal.
pub fn chars_eq(a: &[char], b: &[char]) -> (equal: bool)
    ensures
        equal == (a@ == b@),
{
    if a.len() != b.len() {
        return false;
    }
    let mut index: usize = 0;
    while index < a.len()
        invariant
            a@.len() == b@.len(),
            index <= a@.len(),
            a@.subrange(0, index as int) == b@.subrange(0, index as int),
        decreases a@.len() - index,
    {
        if a[index] != b[index] {
            assert(a@[index as int] != b@[index as int]);
            return false;
        }
        index += 1;
        assert(a@.subrange(0, index as int) =~= a@.subrange(0, index - 1).push(a@[index - 1]));
        assert(b@.subrange(0, index as int) =~= b@.subrange(0, index - 1).push(b@[index - 1]));
    }
    assert(a@.subrange(0, index as int) =~= a@);
    assert(b@.subrange(0, index as int) =~= b@);
    true
}

/// A line with a final carriage return removed.
pub open spec fn strip_cr(line: Seq<char>) -> Seq<char> {
    if line.len() > 0 && line.last() == '\r' {
        line.drop_last()
    } else {
        line
    }
}

/// The finished lines of `s`, and the unfinished text after its last newline.
pub open spec fn line_split_state(s: Seq<char>) -> (Seq<Seq<char>>, Seq<char>)
    decreases s.len(),
{
    if s.len() == 0 {
        (seq![], seq![])
    } else {
        let (done, current) = line_split_state(s.drop_last());
        if s.last() == '\n' {
            (done.push(strip_cr(current)), seq![])
        } else {
            (done, current.push(s.last()))
        }
    }
}

/// The lines of `s` (`str::lines`): split at `\n` or `\r\n`; a final line ending adds no empty line.
pub open spec fn source_lines(s: Seq<char>) -> Seq<Seq<char>> {
    let (done, current) = line_split_state(s);
    if current.len() == 0 {
        done
    } else {
        done.push(current)
    }
}

/// The lines of `chars`, as `source_lines` gives them.
pub fn split_lines(chars: &[char]) -> (lines: Vec<Vec<char>>)
    ensures
        lines@.len() == source_lines(chars@).len(),
        forall|i: int| 0 <= i < lines@.len() ==> #[trigger] lines@[i]@ == source_lines(chars@)[i],
{
    let mut lines: Vec<Vec<char>> = Vec::new();
    let mut current: Vec<char> = Vec::new();
    let mut index: usize = 0;
    while index < chars.len()
        invariant
            index <= chars@.len(),
            lines@.len() == line_split_state(chars@.take(index as int)).0.len(),
            forall|i: int| 0 <= i < lines@.len() ==> #[trigger] lines@[i]@ == line_split_state(chars@.take(index as int)).0[i],
            current@ == line_split_state(chars@.take(index as int)).1,
        decreases chars@.len() - index,
    {
        let c = chars[index];
        assert(chars@.take(index + 1).drop_last() =~= chars@.take(index as int));
        if c == '\n' {
            let n = current.len();
            if n > 0 && current[n - 1] == '\r' {
                current.pop();
            }
            let finished = current;
            lines.push(finished);
            current = Vec::new();
        } else {
            current.push(c);
        }
        index += 1;
    }
    assert(chars@.take(index as int) =~= chars@);
    if current.len() > 0 {
        lines.push(current);
    }
    lines
}

} // verus!
