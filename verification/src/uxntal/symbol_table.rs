use vstd::prelude::*;
use vstd::utf8::{decode_utf8, encode_scalar, encode_utf8, valid_utf8};
use crate::uxn::bytes::{high_byte, join_short, low_byte, short_from_bytes, short_high, short_low};
use crate::text::{decimal_text, push_decimal, push_str};

verus! {

/// Why a `.sym` file could not be read.
#[derive(Debug, PartialEq, Eq)]
pub enum SymbolTableError {
    UnexpectedEndOfFile { offset: usize },
    InvalidUtf8 { offset: usize },
    Io(String),
}

/// The message of an error.
pub open spec fn symbol_error_text(error: SymbolTableError) -> Seq<char> {
    match error {
        SymbolTableError::UnexpectedEndOfFile { offset } =>
            "Unexpected end of file while reading symbol at byte offset "@ + decimal_text(offset as nat),
        SymbolTableError::InvalidUtf8 { offset } =>
            "Invalid UTF-8 in symbol name at byte offset "@ + decimal_text(offset as nat),
        SymbolTableError::Io(message) => "I/O error: "@ + message@,
    }
}

impl SymbolTableError {
    /// The error's message.
    pub fn to_string(&self) -> (text: String)
        ensures
            text@ == symbol_error_text(*self),
    {
        let mut text = String::new();
        match self {
            SymbolTableError::UnexpectedEndOfFile { offset } => {
                push_str(&mut text, "Unexpected end of file while reading symbol at byte offset ");
                push_decimal(&mut text, *offset);
            },
            SymbolTableError::InvalidUtf8 { offset } => {
                push_str(&mut text, "Invalid UTF-8 in symbol name at byte offset ");
                push_decimal(&mut text, *offset);
            },
            SymbolTableError::Io(message) => {
                push_str(&mut text, "I/O error: ");
                push_str(&mut text, message.as_str());
            },
        }
        text
    }
}

/// A named 16-bit address.
#[derive(Debug, PartialEq, Eq)]
pub struct Symbol {
    name: String,
    address: u16,
}

impl View for Symbol {
    type V = (Seq<char>, u16);

    closed spec fn view(&self) -> (Seq<char>, u16) {
        (self.name@, self.address)
    }
}

impl Clone for Symbol {
    fn clone(&self) -> (symbol: Self)
        ensures
            symbol@ == self@,
    {
        Symbol { name: self.name.clone(), address: self.address }
    }
}

impl Symbol {
    pub fn new(name: &str, address: u16) -> (symbol: Self)
        ensures
            symbol@ == (name@, address),
    {
        Symbol { name: name.to_owned(), address }
    }

    pub fn name(&self) -> (name: &str)
        ensures
            name@ == self@.0,
    {
        self.name.as_str()
    }

    pub fn address(&self) -> (address: u16)
        ensures
            address == self@.1,
    {
        self.address
    }
}

/// The view of a symbol table: its entries (name, address) in definition order.
pub type SymbolEntries = Seq<(Seq<char>, u16)>;

/// The entries at `address`, in definition order.
pub open spec fn entries_at(entries: SymbolEntries, address: u16) -> SymbolEntries
    decreases entries.len(),
{
    if entries.len() == 0 {
        seq![]
    } else {
        let before = entries_at(entries.drop_last(), address);
        if entries.last().1 == address {
            before.push(entries.last())
        } else {
            before
        }
    }
}

/// The address of the last entry named `name`: a later definition hides an earlier one.
pub open spec fn last_named(entries: SymbolEntries, name: Seq<char>) -> Option<u16>
    decreases entries.len(),
{
    if entries.len() == 0 {
        None
    } else if entries.last().0 == name {
        Some(entries.last().1)
    } else {
        last_named(entries.drop_last(), name)
    }
}

/// Entry `i` is the first one at `address`.
pub open spec fn first_at(entries: SymbolEntries, address: u16, i: int) -> bool {
    &&& 0 <= i < entries.len()
    &&& entries[i].1 == address
    &&& forall|j: int| 0 <= j < i ==> (#[trigger] entries[j]).1 != address
}

/// Entry `i` is the nearest one at or below `address`: no entry at or below `address` lies
/// above it, and none before it shares its address.
pub open spec fn nearest_at_or_below(entries: SymbolEntries, address: u16, i: int) -> bool {
    &&& 0 <= i < entries.len()
    &&& entries[i].1 <= address
    &&& forall|j: int| 0 <= j < entries.len() && (#[trigger] entries[j]).1 <= address ==> entries[j].1 <= entries[i].1
    &&& forall|j: int| 0 <= j < i ==> (#[trigger] entries[j]).1 != entries[i].1
}

/// The bytes of one entry in the `.sym` format: the address big-endian, the name in UTF-8, a zero.
pub open spec fn entry_bytes(entry: (Seq<char>, u16)) -> Seq<u8> {
    seq![high_byte(entry.1), low_byte(entry.1)] + encode_utf8(entry.0) + seq![0u8]
}

/// The `.sym` bytes of a table: its entries one after the other.
pub open spec fn table_bytes(entries: SymbolEntries) -> Seq<u8>
    decreases entries.len(),
{
    if entries.len() == 0 {
        seq![]
    } else {
        table_bytes(entries.drop_last()) + entry_bytes(entries.last())
    }
}

/// The position of the first zero byte at or after `from`, or the length when there is none.
pub open spec fn next_zero(bytes: Seq<u8>, from: int) -> int
    decreases bytes.len() - from,
{
    if from >= bytes.len() {
        bytes.len() as int
    } else if bytes[from] == 0 {
        from
    } else {
        next_zero(bytes, from + 1)
    }
}

pub proof fn lemma_next_zero(bytes: Seq<u8>, from: int)
    requires
        from <= bytes.len(),
    ensures
        from <= next_zero(bytes, from) <= bytes.len(),
        next_zero(bytes, from) < bytes.len() ==> bytes[next_zero(bytes, from)] == 0,
        forall|k: int| from <= k < next_zero(bytes, from) ==> bytes[k] != 0,
    decreases bytes.len() - from,
{
    if from < bytes.len() && bytes[from] != 0 {
        lemma_next_zero(bytes, from + 1);
    }
}

/// The entries read from `.sym` bytes starting at `position`, or the first error met.
pub open spec fn parse_entries(bytes: Seq<u8>, position: int) -> Result<SymbolEntries, SymbolTableError>
    decreases bytes.len() - position,
{
    if position < 0 || position >= bytes.len() {
        Ok(seq![])
    } else if position + 2 > bytes.len() {
        Err(SymbolTableError::UnexpectedEndOfFile { offset: position as usize })
    } else {
        let address = join_short(bytes[position], bytes[position + 1]);
        let name_start = position + 2;
        let name_end = next_zero(bytes, name_start);
        proof {
            lemma_next_zero(bytes, name_start);
        }
        if name_end >= bytes.len() {
            Err(SymbolTableError::UnexpectedEndOfFile { offset: name_end as usize })
        } else if !valid_utf8(bytes.subrange(name_start, name_end)) {
            Err(SymbolTableError::InvalidUtf8 { offset: name_start as usize })
        } else {
            match parse_entries(bytes, name_end + 1) {
                Ok(rest) => Ok(seq![(decode_utf8(bytes.subrange(name_start, name_end)), address)] + rest),
                Err(error) => Err(error),
            }
        }
    }
}

/// `known` followed by what `rest` read, or the error of `rest`.
pub open spec fn prepend_entries(
    known: SymbolEntries,
    rest: Result<SymbolEntries, SymbolTableError>,
) -> Result<SymbolEntries, SymbolTableError> {
    match rest {
        Ok(entries) => Ok(known + entries),
        Err(error) => Err(error),
    }
}

/// No name holds the NUL character, which the `.sym` format uses as a terminator.
pub open spec fn names_without_nul(entries: SymbolEntries) -> bool {
    forall|i: int, k: int| 0 <= i < entries.len() && 0 <= k < entries[i].0.len() ==> #[trigger] entries[i].0[k] != '\0'
}

proof fn lemma_scalar_bytes_nonzero(c: char)
    requires
        c != '\0',
    ensures
        forall|k: int| 0 <= k < encode_scalar(c as u32).len() ==> #[trigger] encode_scalar(c as u32)[k] != 0,
{
    let s = c as u32;
    vstd::utf8::char_is_scalar(c);
    assert(s != 0);
    assert(0 < s && s <= 0x7F ==> (s & 0x7F) as u8 != 0) by (bit_vector);
    assert((0xC0 | ((s >> 6) & 0x1F) as u8) as u8 != 0) by (bit_vector);
    assert((0xE0 | ((s >> 12) & 0x0F) as u8) as u8 != 0) by (bit_vector);
    assert((0xF0 | ((s >> 18) & 0x7) as u8) as u8 != 0) by (bit_vector);
    assert((0x80 | (s & 0x3F) as u8) as u8 != 0) by (bit_vector);
    assert((0x80 | ((s >> 6) & 0x3F) as u8) as u8 != 0) by (bit_vector);
    assert((0x80 | ((s >> 12) & 0x3F) as u8) as u8 != 0) by (bit_vector);
}

proof fn lemma_encoding_without_zero(name: Seq<char>)
    requires
        forall|k: int| 0 <= k < name.len() ==> #[trigger] name[k] != '\0',
    ensures
        forall|k: int| 0 <= k < encode_utf8(name).len() ==> #[trigger] encode_utf8(name)[k] != 0,
    decreases name.len(),
{
    if name.len() > 0 {
        let rest = name.drop_first();
        assert forall|k: int| 0 <= k < rest.len() implies #[trigger] rest[k] != '\0' by {
            assert(rest[k] == name[k + 1]);
        }
        lemma_encoding_without_zero(rest);
        lemma_scalar_bytes_nonzero(name[0]);
        let first = encode_scalar(name[0] as u32);
        assert forall|k: int| 0 <= k < encode_utf8(name).len() implies #[trigger] encode_utf8(name)[k] != 0 by {
            if k < first.len() {
                assert(encode_utf8(name)[k] == first[k]);
            } else {
                assert(encode_utf8(name)[k] == encode_utf8(rest)[k - first.len()]);
            }
        }
    }
}

proof fn lemma_next_zero_at(bytes: Seq<u8>, from: int, zero: int)
    requires
        0 <= from <= zero < bytes.len(),
        bytes[zero] == 0,
        forall|k: int| from <= k < zero ==> bytes[k] != 0,
    ensures
        next_zero(bytes, from) == zero,
    decreases zero - from,
{
    if from < zero {
        lemma_next_zero_at(bytes, from + 1, zero);
    }
}

proof fn lemma_table_bytes_first(entries: SymbolEntries)
    requires
        entries.len() > 0,
    ensures
        table_bytes(entries) == entry_bytes(entries[0]) + table_bytes(entries.drop_first()),
    decreases entries.len(),
{
    if entries.len() == 1 {
        assert(entries.drop_last() =~= SymbolEntries::empty());
        assert(entries.drop_first() =~= SymbolEntries::empty());
        assert(table_bytes(entries) =~= entry_bytes(entries[0]) + table_bytes(entries.drop_first()));
    } else {
        let shorter = entries.drop_last();
        lemma_table_bytes_first(shorter);
        assert(shorter.drop_first() =~= entries.drop_first().drop_last());
        assert(shorter[0] == entries[0]);
        assert(entries.drop_first().last() == entries.last());
        assert(table_bytes(entries) =~= entry_bytes(entries[0]) + table_bytes(entries.drop_first()));
    }
}

proof fn lemma_parse_entry(prefix: Seq<u8>, entry: (Seq<char>, u16), rest: Seq<u8>)
    requires
        forall|k: int| 0 <= k < entry.0.len() ==> #[trigger] entry.0[k] != '\0',
    ensures
        parse_entries(prefix + entry_bytes(entry) + rest, prefix.len() as int) == prepend_entries(
            seq![entry],
            parse_entries(prefix + entry_bytes(entry) + rest, (prefix.len() + entry_bytes(entry).len()) as int),
        ),
{
    let bytes = prefix + entry_bytes(entry) + rest;
    let name = encode_utf8(entry.0);
    let position = prefix.len() as int;
    let name_start = position + 2;
    let name_end = name_start + name.len();
    lemma_encoding_without_zero(entry.0);
    assert(bytes[position] == high_byte(entry.1));
    assert(bytes[position + 1] == low_byte(entry.1));
    assert forall|k: int| name_start <= k < name_end implies bytes[k] != 0 by {
        assert(bytes[k] == name[k - name_start]);
    }
    assert(bytes[name_end] == 0);
    lemma_next_zero_at(bytes, name_start, name_end);
    assert(bytes.subrange(name_start, name_end) =~= name);
    vstd::utf8::encode_utf8_valid_utf8(entry.0);
    vstd::utf8::encode_utf8_decode_utf8(entry.0);
    crate::uxn::bytes::lemma_join_split(entry.1);
}

proof fn lemma_parse_table(prefix: Seq<u8>, entries: SymbolEntries)
    requires
        names_without_nul(entries),
    ensures
        parse_entries(prefix + table_bytes(entries), prefix.len() as int) == Ok::<SymbolEntries, SymbolTableError>(entries),
    decreases entries.len(),
{
    if entries.len() == 0 {
        assert(prefix + table_bytes(entries) =~= prefix);
        assert(entries =~= SymbolEntries::empty());
    } else {
        lemma_table_bytes_first(entries);
        let first = entries[0];
        let rest = entries.drop_first();
        assert forall|k: int| 0 <= k < first.0.len() implies #[trigger] first.0[k] != '\0' by {
            assert(entries[0].0[k] != '\0');
        }
        assert(names_without_nul(rest)) by {
            assert forall|i: int, k: int| 0 <= i < rest.len() && 0 <= k < rest[i].0.len() implies #[trigger] rest[i].0[k] != '\0' by {
                assert(rest[i] == entries[i + 1]);
                assert(entries[i + 1].0[k] != '\0');
            }
        }
        let next_prefix = prefix + entry_bytes(first);
        assert(prefix + table_bytes(entries) =~= prefix + entry_bytes(first) + table_bytes(rest));
        lemma_parse_entry(prefix, first, table_bytes(rest));
        lemma_parse_table(next_prefix, rest);
        let bytes = prefix + entry_bytes(first) + table_bytes(rest);
        assert(next_prefix + table_bytes(rest) =~= bytes);
        assert(next_prefix.len() == prefix.len() + entry_bytes(first).len());
        assert(parse_entries(bytes, next_prefix.len() as int) == Ok::<SymbolEntries, SymbolTableError>(rest));
        assert(seq![first] + rest =~= entries);
        assert(parse_entries(bytes, prefix.len() as int) == Ok::<SymbolEntries, SymbolTableError>(seq![first] + rest));
    }
}

/// Writing a table in the `.sym` format and reading it back gives the same symbols in the same
/// order, provided no name holds the NUL character that terminates names in that format.
pub proof fn lemma_sym_roundtrip(entries: SymbolEntries)
    requires
        names_without_nul(entries),
    ensures
        parse_entries(table_bytes(entries), 0) == Ok::<SymbolEntries, SymbolTableError>(entries),
{
    lemma_parse_table(Seq::<u8>::empty(), entries);
    assert(Seq::<u8>::empty() + table_bytes(entries) =~= table_bytes(entries));
}

/// Reads `bytes` as UTF-8 text with `std::str::from_utf8`, trusted to give the text whose
/// encoding is `bytes` exactly when they are valid UTF-8, and nothing otherwise.
#[verifier::external_body]
fn utf8_text(bytes: &[u8]) -> (text: Option<&str>)
    ensures
        match text {
            Some(t) => encode_utf8(t@) == bytes@,
            None => !valid_utf8(bytes@),
        },
{
    match std::str::from_utf8(bytes) {
        Ok(text) => Some(text),
        Err(_) => None,
    }
}

/// Symbols mapping names to 16-bit addresses, in definition order.
#[derive(Debug, PartialEq, Eq)]
pub struct SymbolTable {
    symbols: Vec<Symbol>,
}

impl View for SymbolTable {
    type V = SymbolEntries;

    closed spec fn view(&self) -> SymbolEntries {
        self.symbols@.map_values(|symbol: Symbol| symbol@)
    }
}

impl Clone for SymbolTable {
    fn clone(&self) -> (table: Self)
        ensures
            table@ == self@,
    {
        let mut table = SymbolTable::new();
        let mut index: usize = 0;
        while index < self.symbols.len()
            invariant
                index <= self@.len(),
                table@ == self@.take(index as int),
            decreases self@.len() - index,
        {
            table.insert(self.symbols[index].name(), self.symbols[index].address());
            index += 1;
            assert(table@ =~= self@.take(index as int));
        }
        assert(self@.take(index as int) =~= self@);
        table
    }
}

impl Default for SymbolTable {
    fn default() -> (table: Self)
        ensures
            table@ == SymbolEntries::empty(),
    {
        SymbolTable::new()
    }
}

impl SymbolTable {
    pub fn new() -> (table: Self)
        ensures
            table@ == SymbolEntries::empty(),
    {
        let table = SymbolTable { symbols: Vec::new() };
        assert(table@ =~= SymbolEntries::empty());
        table
    }

    /// Adds a symbol after all others; an earlier one of the same name stays in the table.
    pub fn insert(&mut self, name: &str, address: u16)
        ensures
            final(self)@ == old(self)@.push((name@, address)),
    {
        self.symbols.push(Symbol::new(name, address));
        assert(self@ =~= old(self)@.push((name@, address)));
    }

    /// All symbols in definition order.
    pub fn symbols(&self) -> (symbols: &[Symbol])
        ensures
            symbols@.len() == self@.len(),
            forall|i: int| 0 <= i < symbols@.len() ==> (#[trigger] symbols@[i])@ == self@[i],
    {
        self.symbols.as_slice()
    }

    pub fn len(&self) -> (len: usize)
        ensures
            len == self@.len(),
    {
        self.symbols.len()
    }

    pub fn is_empty(&self) -> (empty: bool)
        ensures
            empty == (self@.len() == 0),
    {
        self.symbols.len() == 0
    }

    /// The first symbol defined at `address`.
    pub fn lookup_address(&self, address: u16) -> (symbol: Option<&Symbol>)
        ensures
            match symbol {
                Some(s) => exists|i: int| first_at(self@, address, i) && s@ == self@[i],
                None => forall|i: int| 0 <= i < self@.len() ==> (#[trigger] self@[i]).1 != address,
            },
    {
        let mut index: usize = 0;
        while index < self.symbols.len()
            invariant
                index <= self@.len(),
                forall|j: int| 0 <= j < index ==> (#[trigger] self@[j]).1 != address,
            decreases self@.len() - index,
        {
            if self.symbols[index].address == address {
                assert(first_at(self@, address, index as int));
                return Some(&self.symbols[index]);
            }
            index += 1;
        }
        None
    }

    /// All symbols defined at `address`, in definition order.
    pub fn lookup_all_at_address(&self, address: u16) -> (symbols: Vec<&Symbol>)
        ensures
            symbols@.len() == entries_at(self@, address).len(),
            forall|i: int| 0 <= i < symbols@.len() ==> (#[trigger] symbols@[i])@ == entries_at(self@, address)[i],
    {
        let mut found: Vec<&Symbol> = Vec::new();
        let mut index: usize = 0;
        while index < self.symbols.len()
            invariant
                index <= self@.len(),
                found@.len() == entries_at(self@.take(index as int), address).len(),
                forall|i: int| 0 <= i < found@.len() ==> (#[trigger] found@[i])@ == entries_at(self@.take(index as int), address)[i],
            decreases self@.len() - index,
        {
            assert(self@.take(index + 1).drop_last() =~= self@.take(index as int));
            if self.symbols[index].address == address {
                found.push(&self.symbols[index]);
            }
            index += 1;
        }
        assert(self@.take(index as int) =~= self@);
        found
    }

    /// The address of the symbol named `name`; the last definition wins.
    pub fn lookup_name(&self, name: &str) -> (address: Option<u16>)
        ensures
            address == last_named(self@, name@),
    {
        let mut found: Option<u16> = None;
        let mut index: usize = 0;
        while index < self.symbols.len()
            invariant
                index <= self@.len(),
                found == last_named(self@.take(index as int), name@),
            decreases self@.len() - index,
        {
            assert(self@.take(index + 1).drop_last() =~= self@.take(index as int));
            if crate::text::text_eq(self.symbols[index].name.as_str(), name) {
                found = Some(self.symbols[index].address);
            }
            index += 1;
        }
        assert(self@.take(index as int) =~= self@);
        found
    }

    /// The nearest symbol at or below `address`, with the distance from it.
    pub fn find_nearest_symbol(&self, address: u16) -> (nearest: Option<(&Symbol, u16)>)
        ensures
            match nearest {
                Some((symbol, offset)) => exists|i: int|
                    nearest_at_or_below(self@, address, i) && symbol@ == self@[i] && offset == address - self@[i].1,
                None => forall|i: int| 0 <= i < self@.len() ==> (#[trigger] self@[i]).1 > address,
            },
    {
        let mut best: Option<(&Symbol, u16)> = None;
        let ghost mut best_index: int = 0;
        let mut index: usize = 0;
        while index < self.symbols.len()
            invariant
                index <= self@.len(),
                match best {
                    Some((symbol, offset)) => {
                        &&& nearest_at_or_below(self@.take(index as int), address, best_index)
                        &&& symbol@ == self@[best_index]
                        &&& offset == address - self@[best_index].1
                    },
                    None => forall|i: int| 0 <= i < index ==> (#[trigger] self@[i]).1 > address,
                },
            decreases self@.len() - index,
        {
            let symbol = &self.symbols[index];
            if symbol.address <= address {
                let offset = address - symbol.address;
                match best {
                    None => {
                        best = Some((symbol, offset));
                        proof { best_index = index as int; }
                    },
                    Some((_, best_offset)) => {
                        if offset < best_offset {
                            best = Some((symbol, offset));
                            proof { best_index = index as int; }
                        }
                    },
                }
            }
            index += 1;
        }
        assert(self@.take(index as int) =~= self@);
        best
    }

    /// Reads a table in the `.sym` format.
    pub fn from_bytes(bytes: &[u8]) -> (table: Result<Self, SymbolTableError>)
        ensures
            match table {
                Ok(t) => parse_entries(bytes@, 0) == Ok::<SymbolEntries, SymbolTableError>(t@),
                Err(error) => parse_entries(bytes@, 0) == Err::<SymbolEntries, SymbolTableError>(error),
            },
    {
        let mut table = SymbolTable::new();
        let mut position: usize = 0;
        assert(table@ + SymbolEntries::empty() =~= table@);
        while position < bytes.len()
            invariant
                position <= bytes@.len(),
                parse_entries(bytes@, 0) == prepend_entries(table@, parse_entries(bytes@, position as int)),
            decreases bytes@.len() - position,
        {
            if bytes.len() - position < 2 {
                return Err(SymbolTableError::UnexpectedEndOfFile { offset: position });
            }
            let address = short_from_bytes(bytes[position], bytes[position + 1]);
            let name_start = position + 2;
            let mut name_end = name_start;
            proof {
                lemma_next_zero(bytes@, name_start as int);
            }
            while name_end < bytes.len() && bytes[name_end] != 0
                invariant
                    name_start <= name_end <= bytes@.len(),
                    name_start <= bytes@.len(),
                    next_zero(bytes@, name_start as int) == next_zero(bytes@, name_end as int),
                decreases bytes@.len() - name_end,
            {
                name_end += 1;
            }
            if name_end >= bytes.len() {
                return Err(SymbolTableError::UnexpectedEndOfFile { offset: name_end });
            }
            let name_bytes = vstd::slice::slice_subrange(bytes, name_start, name_end);
            let name = match utf8_text(name_bytes) {
                Some(text) => text,
                None => {
                    return Err(SymbolTableError::InvalidUtf8 { offset: name_start });
                },
            };
            proof {
                vstd::utf8::encode_utf8_decode_utf8(name@);
                vstd::utf8::encode_utf8_valid_utf8(name@);
            }
            let ghost rest = parse_entries(bytes@, name_end + 1);
            let ghost before = table@;
            table.insert(name, address);
            position = name_end + 1;
            proof {
                match rest {
                    Ok(entries) => {
                        assert(before + (seq![(name@, address)] + entries) =~= table@ + entries);
                    },
                    Err(_) => {},
                }
            }
        }
        Ok(table)
    }

    /// The table in the `.sym` format.
    pub fn to_bytes(&self) -> (bytes: Vec<u8>)
        ensures
            bytes@ == table_bytes(self@),
    {
        let mut bytes: Vec<u8> = Vec::new();
        let mut index: usize = 0;
        while index < self.symbols.len()
            invariant
                index <= self@.len(),
                bytes@ == table_bytes(self@.take(index as int)),
            decreases self@.len() - index,
        {
            let symbol = &self.symbols[index];
            let ghost before = bytes@;
            bytes.push(short_high(symbol.address));
            bytes.push(short_low(symbol.address));
            let name_bytes = symbol.name.as_str().as_bytes();
            let mut k: usize = 0;
            while k < name_bytes.len()
                invariant
                    k <= name_bytes@.len(),
                    name_bytes@ == encode_utf8(self@[index as int].0),
                    bytes@ == before + seq![high_byte(self@[index as int].1), low_byte(self@[index as int].1)] + name_bytes@.take(k as int),
                decreases name_bytes@.len() - k,
            {
                bytes.push(name_bytes[k]);
                k += 1;
                assert(name_bytes@.take(k as int) =~= name_bytes@.take(k - 1).push(name_bytes@[k - 1]));
            }
            bytes.push(0u8);
            assert(name_bytes@.take(k as int) =~= name_bytes@);
            assert(self@.take(index + 1).drop_last() =~= self@.take(index as int));
            assert(bytes@ =~= table_bytes(self@.take(index + 1)));
            index += 1;
        }
        assert(self@.take(index as int) =~= self@);
        bytes
    }
}

/// After a symbol is inserted, looking its name up gives its address: the last definition of a
/// name wins.
pub proof fn lemma_lookup_after_insert(entries: SymbolEntries, name: Seq<char>, address: u16)
    ensures
        last_named(entries.push((name, address)), name) == Some(address),
{
    assert(entries.push((name, address)).last() == (name, address));
}

} // verus!
