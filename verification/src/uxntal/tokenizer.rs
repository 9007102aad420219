use vstd::prelude::*;
use vstd::utf8::{encode_scalar, encode_utf8};
use super::location::Location;
use super::number::{all_nibbles, is_nibble, is_nibble_char};
use super::source_map::{FileId, SourceMap};
use super::token::{Token, TokenKind, TokenView};
use crate::text::chars_of;

verus! {

/// ASCII whitespace: space, tab, line feed, form feed and carriage return.
pub open spec fn is_ascii_whitespace(c: char) -> bool {
    c == ' ' || c == '\t' || c == '\n' || c == '\x0C' || c == '\r'
}

/// `x + 1`, staying at the largest `usize`.
pub open spec fn saturating_inc(x: usize) -> usize {
    if x < usize::MAX { (x + 1) as usize } else { x }
}

/// The line and column after reading `text` from line 1, column 1.
pub open spec fn cursor_after(text: Seq<char>) -> (usize, usize)
    decreases text.len(),
{
    if text.len() == 0 {
        (1, 1)
    } else {
        let (line, column) = cursor_after(text.drop_last());
        if text.last() == '\n' {
            (saturating_inc(line), 1)
        } else {
            (line, saturating_inc(column))
        }
    }
}

/// The location of character `i` of `source`: its byte offset, line and column.
pub open spec fn location_at(file_id: FileId, source: Seq<char>, i: int) -> Location {
    let (line, column) = cursor_after(source.take(i));
    Location { file_id, offset: encode_utf8(source.take(i)).len() as usize, line, column }
}

/// The end of the run of non-whitespace characters that starts at `i`.
pub open spec fn word_end(source: Seq<char>, i: int) -> int
    decreases source.len() - i,
{
    if i < 0 || i >= source.len() || is_ascii_whitespace(source[i]) {
        i
    } else {
        word_end(source, i + 1)
    }
}

/// The end of a comment whose text from `i` on is read at nesting depth `depth`: it ends after
/// the `)` that closes the outermost `(`, or at the end of the source.
pub open spec fn comment_end(source: Seq<char>, i: int, depth: nat) -> int
    decreases source.len() - i,
{
    if i < 0 || i >= source.len() {
        source.len() as int
    } else if source[i] == '(' {
        comment_end(source, i + 1, depth + 1)
    } else if source[i] == ')' {
        if depth <= 1 {
            i + 1
        } else {
            comment_end(source, i + 1, (depth - 1) as nat)
        }
    } else {
        comment_end(source, i + 1, depth)
    }
}

pub proof fn lemma_comment_end(source: Seq<char>, i: int, depth: nat)
    requires
        0 <= i <= source.len(),
    ensures
        i <= comment_end(source, i, depth) <= source.len(),
        i < source.len() ==> i < comment_end(source, i, depth),
    decreases source.len() - i,
{
    if i < source.len() {
        if source[i] == '(' {
            lemma_comment_end(source, i + 1, depth + 1);
        } else if source[i] == ')' {
            if depth > 1 {
                lemma_comment_end(source, i + 1, (depth - 1) as nat);
            }
        } else {
            lemma_comment_end(source, i + 1, depth);
        }
    }
}

pub proof fn lemma_word_end(source: Seq<char>, i: int)
    requires
        0 <= i <= source.len(),
    ensures
        i <= word_end(source, i) <= source.len(),
        forall|k: int| i <= k < word_end(source, i) ==> !is_ascii_whitespace(source[k]),
        word_end(source, i) < source.len() ==> is_ascii_whitespace(source[word_end(source, i)]),
    decreases source.len() - i,
{
    if i < source.len() && !is_ascii_whitespace(source[i]) {
        lemma_word_end(source, i + 1);
    }
}

/// Where the next token starts: whitespace and comments from `i` on are skipped.
pub open spec fn trivia_end(source: Seq<char>, i: int) -> int
    decreases source.len() - i,
{
    if i < 0 || i >= source.len() {
        i
    } else if is_ascii_whitespace(source[i]) {
        trivia_end(source, i + 1)
    } else if source[i] == '(' {
        let end = comment_end(source, i, 0);
        proof {
            lemma_comment_end(source, i, 0);
        }
        trivia_end(source, end)
    } else {
        i
    }
}

pub proof fn lemma_trivia_end(source: Seq<char>, i: int)
    requires
        0 <= i <= source.len(),
    ensures
        i <= trivia_end(source, i) <= source.len(),
        trivia_end(source, i) < source.len() ==> !is_ascii_whitespace(source[trivia_end(source, i)])
            && source[trivia_end(source, i)] != '(',
    decreases source.len() - i,
{
    if i < source.len() {
        if is_ascii_whitespace(source[i]) {
            lemma_trivia_end(source, i + 1);
        } else if source[i] == '(' {
            lemma_comment_end(source, i, 0);
            lemma_trivia_end(source, comment_end(source, i, 0));
        }
    }
}

/// The kind a token takes from its first character, when that character decides it.
pub open spec fn rune_kind(c: char) -> Option<TokenKind> {
    if c == '{' {
        Some(TokenKind::BraceOpen)
    } else if c == '}' {
        Some(TokenKind::BraceClose)
    } else if c == '[' {
        Some(TokenKind::BracketOpen)
    } else if c == ']' {
        Some(TokenKind::BracketClose)
    } else if c == '~' {
        Some(TokenKind::Include)
    } else if c == '%' {
        Some(TokenKind::MacroDefinition)
    } else if c == '|' {
        Some(TokenKind::PadAbsolute)
    } else if c == '$' {
        Some(TokenKind::PadRelative)
    } else if c == '@' {
        Some(TokenKind::Label)
    } else if c == '&' {
        Some(TokenKind::Sublabel)
    } else if c == '#' {
        Some(TokenKind::HexLiteral)
    } else if c == '!' {
        Some(TokenKind::JumpImmediate)
    } else if c == '?' {
        Some(TokenKind::JumpConditional)
    } else if c == ';' {
        Some(TokenKind::LiteralAbsolute)
    } else if c == '.' {
        Some(TokenKind::LiteralZeroPage)
    } else if c == ',' {
        Some(TokenKind::LiteralRelative)
    } else if c == '=' {
        Some(TokenKind::RawAbsolute)
    } else if c == '-' {
        Some(TokenKind::RawZeroPage)
    } else if c == '_' {
        Some(TokenKind::RawRelative)
    } else if c == '"' {
        Some(TokenKind::RawString)
    } else if 'A' <= c && c <= 'Z' {
        Some(TokenKind::OpCode)
    } else {
        None
    }
}

/// Brackets and braces are tokens of one character.
pub open spec fn is_bracket(c: char) -> bool {
    c == '{' || c == '}' || c == '[' || c == ']'
}

/// The end of the token that starts at `i`.
pub open spec fn token_end(source: Seq<char>, i: int) -> int {
    if is_bracket(source[i]) {
        i + 1
    } else {
        word_end(source, i)
    }
}

/// The kind of the token `source[start..end]`: by its rune, or else a number when it is two or
/// four lowercase hex digits, or else an identifier.
pub open spec fn token_kind(source: Seq<char>, start: int, end: int) -> TokenKind {
    match rune_kind(source[start]) {
        Some(kind) => kind,
        None => {
            let word = source.subrange(start, end);
            if (word.len() == 2 || word.len() == 4) && all_nibbles(word) {
                TokenKind::Number
            } else {
                TokenKind::Identifier
            }
        },
    }
}

/// The tokens of `source` from `i` on: kind, start and end of each, in order.
pub open spec fn tokens_from(source: Seq<char>, i: int) -> Seq<(TokenKind, int, int)>
    decreases source.len() - i,
{
    if i < 0 || i > source.len() {
        seq![]
    } else {
        let start = trivia_end(source, i);
        proof {
            lemma_trivia_end(source, i);
        }
        if start >= source.len() {
            seq![]
        } else {
            let end = token_end(source, start);
            proof {
                lemma_word_end(source, start);
            }
            seq![(token_kind(source, start, end), start, end)] + tokens_from(source, end)
        }
    }
}

/// `token` is the token that `span` marks in `source`.
pub open spec fn is_token_at(token: Token, file_id: FileId, source: Seq<char>, span: (TokenKind, int, int)) -> bool {
    &&& token.kind == span.0
    &&& token.value@ == source.subrange(span.1, span.2)
    &&& token.location == location_at(file_id, source, span.1)
}

/// `tokens` are exactly the tokens of `source`.
pub open spec fn tokens_of(tokens: Seq<Token>, file_id: FileId, source: Seq<char>) -> bool {
    let spans = tokens_from(source, 0);
    &&& tokens.len() == spans.len()
    &&& forall|k: int| 0 <= k < tokens.len() ==> is_token_at(#[trigger] tokens[k], file_id, source, spans[k])
}

pub proof fn lemma_spans(source: Seq<char>, i: int)
    requires
        0 <= i <= source.len(),
    ensures
        forall|k: int| 0 <= k < tokens_from(source, i).len() ==> {
            let span = #[trigger] tokens_from(source, i)[k];
            &&& i <= span.1 < span.2 <= source.len()
            &&& !is_ascii_whitespace(source[span.1])
            &&& span.0 == token_kind(source, span.1, span.2)
        },
    decreases source.len() - i,
{
    lemma_trivia_end(source, i);
    let start = trivia_end(source, i);
    if start < source.len() {
        lemma_word_end(source, start);
        let end = token_end(source, start);
        lemma_spans(source, end);
        let spans = tokens_from(source, i);
        assert(spans == seq![(token_kind(source, start, end), start, end)] + tokens_from(source, end));
        assert forall|k: int| 0 <= k < spans.len() implies {
            let span = #[trigger] spans[k];
            &&& i <= span.1 < span.2 <= source.len()
            &&& !is_ascii_whitespace(source[span.1])
            &&& span.0 == token_kind(source, span.1, span.2)
        } by {
            if k > 0 {
                assert(spans[k] == tokens_from(source, end)[k - 1]);
            }
        }
    }
}

/// Tokens whose rune the preprocessor strips (includes, macro definitions, labels) begin with a
/// one-byte rune.
pub open spec fn stripped_rune_ascii(token: TokenView) -> bool {
    (token.0 is Include || token.0 is MacroDefinition || token.0 is Label) ==> token.1.len() > 0 && (token.1[0] as u32) < 0x80
}

/// The tokenizer's tokens are well formed: they begin with their rune.
pub proof fn lemma_tokens_well_formed(tokens: Seq<Token>, file_id: FileId, source: Seq<char>)
    requires
        tokens_of(tokens, file_id, source),
    ensures
        super::token::all_well_formed(tokens),
        forall|k: int| 0 <= k < tokens.len() ==> stripped_rune_ascii(#[trigger] super::token::token_view(tokens[k])),
{
    lemma_spans(source, 0);
    let spans = tokens_from(source, 0);
    assert forall|k: int| 0 <= k < tokens.len() implies super::token::well_formed_token(#[trigger] super::token::token_view(tokens[k]))
        && stripped_rune_ascii(super::token::token_view(tokens[k])) by {
        let span = spans[k];
        assert(is_token_at(tokens[k], file_id, source, span));
        assert(tokens[k].value@ == source.subrange(span.1, span.2));
        assert(tokens[k].value@[0] == source[span.1]);
    }
}

/// The tokens of `source` in file `file_id`, as plain values.
pub open spec fn source_tokens(file_id: FileId, source: Seq<char>) -> Seq<TokenView> {
    let spans = tokens_from(source, 0);
    Seq::new(spans.len(), |k: int| (spans[k].0, source.subrange(spans[k].1, spans[k].2), location_at(file_id, source, spans[k].1)))
}

/// Tokens that are exactly those of `source` have `source_tokens` as their plain values.
pub proof fn lemma_source_tokens(tokens: Seq<Token>, file_id: FileId, source: Seq<char>)
    requires
        tokens_of(tokens, file_id, source),
    ensures
        super::token::tokens_view(tokens) == source_tokens(file_id, source),
{
    let spans = tokens_from(source, 0);
    assert forall|k: int| 0 <= k < tokens.len() implies #[trigger] super::token::tokens_view(tokens)[k] == source_tokens(file_id, source)[k] by {
        assert(is_token_at(tokens[k], file_id, source, spans[k]));
    }
    assert(super::token::tokens_view(tokens) =~= source_tokens(file_id, source));
}

proof fn lemma_encode_concat(a: Seq<char>, b: Seq<char>)
    ensures
        encode_utf8(a + b) == encode_utf8(a) + encode_utf8(b),
    decreases a.len(),
{
    if a.len() == 0 {
        assert(a + b =~= b);
        assert(encode_utf8(a) + encode_utf8(b) =~= encode_utf8(b));
    } else {
        lemma_encode_concat(a.drop_first(), b);
        assert((a + b).drop_first() =~= a.drop_first() + b);
        assert((a + b)[0] == a[0]);
        assert(encode_utf8(a + b) =~= encode_utf8(a) + encode_utf8(b));
    }
}

proof fn lemma_encode_prefix(source: Seq<char>, i: int)
    requires
        0 <= i < source.len(),
    ensures
        encode_utf8(source.take(i + 1)) == encode_utf8(source.take(i)) + encode_scalar(source[i] as u32),
        encode_utf8(source.take(i + 1)).len() <= encode_utf8(source).len(),
{
    lemma_encode_concat(source.take(i), seq![source[i]]);
    assert(source.take(i + 1) =~= source.take(i) + seq![source[i]]);
    assert(encode_utf8(seq![source[i]]) =~= encode_scalar(source[i] as u32)) by {
        let single = seq![source[i]];
        assert(single.drop_first() =~= Seq::<char>::empty());
        assert(single[0] == source[i]);
        assert(encode_utf8(single.drop_first()) =~= Seq::<u8>::empty());
        assert(encode_utf8(single) == encode_scalar(single[0] as u32) + encode_utf8(single.drop_first()));
    }
    lemma_encode_concat(source.take(i + 1), source.skip(i + 1));
    assert(source.take(i + 1) + source.skip(i + 1) =~= source);
}

/// The number of bytes of `c` in UTF-8.
fn utf8_width(c: char) -> (width: usize)
    ensures
        width == encode_scalar(c as u32).len(),
{
    proof {
        vstd::utf8::char_is_scalar(c);
    }
    let code = c as u32;
    if code < 0x80 {
        1
    } else if code < 0x800 {
        2
    } else if code < 0x10000 {
        3
    } else {
        4
    }
}

fn rune_kind_of(c: char) -> (kind: Option<TokenKind>)
    ensures
        kind == rune_kind(c),
{
    if c == '{' {
        Some(TokenKind::BraceOpen)
    } else if c == '}' {
        Some(TokenKind::BraceClose)
    } else if c == '[' {
        Some(TokenKind::BracketOpen)
    } else if c == ']' {
        Some(TokenKind::BracketClose)
    } else if c == '~' {
        Some(TokenKind::Include)
    } else if c == '%' {
        Some(TokenKind::MacroDefinition)
    } else if c == '|' {
        Some(TokenKind::PadAbsolute)
    } else if c == '$' {
        Some(TokenKind::PadRelative)
    } else if c == '@' {
        Some(TokenKind::Label)
    } else if c == '&' {
        Some(TokenKind::Sublabel)
    } else if c == '#' {
        Some(TokenKind::HexLiteral)
    } else if c == '!' {
        Some(TokenKind::JumpImmediate)
    } else if c == '?' {
        Some(TokenKind::JumpConditional)
    } else if c == ';' {
        Some(TokenKind::LiteralAbsolute)
    } else if c == '.' {
        Some(TokenKind::LiteralZeroPage)
    } else if c == ',' {
        Some(TokenKind::LiteralRelative)
    } else if c == '=' {
        Some(TokenKind::RawAbsolute)
    } else if c == '-' {
        Some(TokenKind::RawZeroPage)
    } else if c == '_' {
        Some(TokenKind::RawRelative)
    } else if c == '"' {
        Some(TokenKind::RawString)
    } else if 'A' <= c && c <= 'Z' {
        Some(TokenKind::OpCode)
    } else {
        None
    }
}

fn is_whitespace_char(c: char) -> (whitespace: bool)
    ensures
        whitespace == is_ascii_whitespace(c),
{
    c == ' ' || c == '\t' || c == '\n' || c == '\x0C' || c == '\r'
}

/// The identifier a source registered under `path` gets: that of an earlier file with the same
/// path, or the next free one.
pub open spec fn registered_id(files: Seq<super::source_map::SourceFile>, path: Seq<char>) -> FileId {
    match super::source_map::file_with_path(files, path) {
        Some(i) => FileId(i as usize),
        None => FileId(files.len() as usize),
    }
}

/// Splits Uxntal source text into tokens, tracking each token's location.
pub struct Tokenizer {
    source: Vec<char>,
    state: (usize, Location),
}

impl Tokenizer {
    #[verifier::type_invariant]
    closed spec fn inv(self) -> bool {
        &&& self.state.0 <= self.source@.len()
        &&& encode_utf8(self.source@).len() <= usize::MAX
        &&& self.state.1 == location_at(self.state.1.file_id, self.source@, self.state.0 as int)
    }

    /// The source text.
    pub closed spec fn text(&self) -> Seq<char> {
        self.source@
    }

    /// How many characters have been read.
    pub closed spec fn read(&self) -> int {
        self.state.0 as int
    }

    /// The file the tokens are attributed to.
    pub closed spec fn file(&self) -> FileId {
        self.state.1.file_id
    }

    /// The tokens still to come.
    pub open spec fn remaining(&self) -> Seq<(TokenKind, int, int)> {
        tokens_from(self.text(), self.read())
    }

    /// A tokenizer for `source`, attributed to the default file.
    pub fn new(source: &str) -> (tokenizer: Self)
        ensures
            tokenizer.text() == source@,
            tokenizer.read() == 0,
            tokenizer.file() == FileId(0),
    {
        Self::with_file(FileId(0), source)
    }

    /// A tokenizer for `source`, attributed to `file_id`.
    pub fn with_file(file_id: FileId, source: &str) -> (tokenizer: Self)
        ensures
            tokenizer.text() == source@,
            tokenizer.read() == 0,
            tokenizer.file() == file_id,
    {
        let byte_count = source.as_bytes().len();
        let chars = chars_of(source);
        let tokenizer = Tokenizer { source: chars, state: (0, Location { file_id, offset: 0, line: 1, column: 1 }) };
        assert(source@.take(0) =~= Seq::<char>::empty());
        tokenizer
    }

    fn peek(&self) -> (c: Option<char>)
        ensures
            c == (if self.read() < self.text().len() { Some(self.text()[self.read()]) } else { None }),
    {
        proof { use_type_invariant(self); }
        if self.state.0 < self.source.len() {
            Some(self.source[self.state.0])
        } else {
            None
        }
    }

    /// Reads one character, moving the location past it.
    fn pop(&mut self) -> (c: Option<char>)
        ensures
            final(self).text() == old(self).text(),
            final(self).file() == old(self).file(),
            c == (if old(self).read() < old(self).text().len() { Some(old(self).text()[old(self).read()]) } else { None }),
            final(self).read() == (if old(self).read() < old(self).text().len() { old(self).read() + 1 } else { old(self).read() }),
    {
        proof { use_type_invariant(&*self); }
        let (position, cursor) = self.state;
        if position >= self.source.len() {
            return None;
        }
        let c = self.source[position];
        proof {
            lemma_encode_prefix(self.source@, position as int);
            assert(self.source@.take(position + 1).drop_last() =~= self.source@.take(position as int));
        }
        let width = utf8_width(c);
        let line = if c == '\n' { cursor.line.saturating_add(1) } else { cursor.line };
        let column = if c == '\n' { 1 } else { cursor.column.saturating_add(1) };
        self.state = (position + 1, Location { file_id: cursor.file_id, offset: cursor.offset + width, line, column });
        Some(c)
    }

    /// Skips a run of whitespace; true when there was any.
    fn skip_whitespace(&mut self) -> (skipped: bool)
        ensures
            final(self).text() == old(self).text(),
            final(self).file() == old(self).file(),
            old(self).read() <= final(self).read() <= final(self).text().len(),
            skipped == (final(self).read() > old(self).read()),
            trivia_end(old(self).text(), old(self).read()) == trivia_end(final(self).text(), final(self).read()),
            final(self).read() < final(self).text().len() ==> !is_ascii_whitespace(final(self).text()[final(self).read()]),
    {
        proof { use_type_invariant(&*self); }
        let ghost start = self.read();
        let mut skipped = false;
        loop
            invariant
                self.text() == old(self).text(),
                self.file() == old(self).file(),
                start == old(self).read(),
                start <= self.read() <= self.text().len(),
                skipped == (self.read() > start),
                trivia_end(self.text(), start) == trivia_end(self.text(), self.read()),
            ensures
                self.read() < self.text().len() ==> !is_ascii_whitespace(self.text()[self.read()]),
            decreases self.text().len() - self.read(),
        {
            proof { use_type_invariant(&*self); }
            match self.peek() {
                Some(c) => {
                    if !is_whitespace_char(c) {
                        break;
                    }
                },
                None => break,
            }
            self.pop();
            skipped = true;
        }
        skipped
    }

    /// Skips a comment, nested parentheses included; false when none starts here.
    fn skip_comment(&mut self) -> (skipped: bool)
        ensures
            final(self).text() == old(self).text(),
            final(self).file() == old(self).file(),
            old(self).read() <= final(self).read() <= final(self).text().len(),
            skipped == (final(self).read() > old(self).read()),
            skipped == (old(self).read() < old(self).text().len() && old(self).text()[old(self).read()] == '('),
            old(self).read() < old(self).text().len() && !is_ascii_whitespace(old(self).text()[old(self).read()]) ==>
                trivia_end(old(self).text(), old(self).read()) == trivia_end(final(self).text(), final(self).read()),
    {
        proof { use_type_invariant(&*self); }
        match self.peek() {
            Some(c) => {
                if c != '(' {
                    return false;
                }
            },
            None => return false,
        }
        let ghost start = self.read();
        let ghost text = self.text();
        let mut depth: usize = 0;
        proof {
            lemma_comment_end(text, start, 0);
        }
        loop
            invariant_except_break
                comment_end(text, start, 0) == comment_end(text, self.read(), depth as nat),
            invariant
                self.text() == text,
                self.file() == old(self).file(),
                text == old(self).text(),
                start == old(self).read(),
                0 <= start < text.len(),
                text[start] == '(',
                start <= self.read() <= text.len(),
                depth <= self.read() - start,
                self.read() == start ==> depth == 0,
                self.read() > start ==> depth >= 1,
            ensures
                self.text() == text,
                self.file() == old(self).file(),
                start < self.read() <= text.len(),
                self.read() == comment_end(text, start, 0),
            decreases text.len() - self.read(),
        {
            proof { use_type_invariant(&*self); }
            let popped = self.pop();
            match popped {
                Some(c) => {
                    if c == '(' {
                        depth = depth + 1;
                    } else if c == ')' {
                        if depth <= 1 {
                            break;
                        }
                        depth = depth - 1;
                    }
                },
                None => break,
            }
        }
        true
    }

    /// Skips whitespace and comments.
    fn skip_trivia(&mut self)
        ensures
            final(self).text() == old(self).text(),
            final(self).file() == old(self).file(),
            final(self).read() == trivia_end(old(self).text(), old(self).read()),
    {
        proof { use_type_invariant(&*self); }
        let ghost text = self.text();
        let ghost start = self.read();
        loop
            invariant
                self.text() == text,
                self.file() == old(self).file(),
                text == old(self).text(),
                start == old(self).read(),
                start <= self.read() <= text.len(),
                trivia_end(text, start) == trivia_end(text, self.read()),
            ensures
                self.text() == text,
                self.file() == old(self).file(),
                self.read() == trivia_end(text, start),
            decreases text.len() - self.read(),
        {
            proof { use_type_invariant(&*self); }
            let skipped_whitespace = self.skip_whitespace();
            if skipped_whitespace {
                continue;
            }
            let skipped_comment = self.skip_comment();
            if !skipped_comment {
                break;
            }
        }
    }

    /// The next token, or `None` when only whitespace and comments remain.
    pub fn next(&mut self) -> (token: Option<Token>)
        ensures
            final(self).text() == old(self).text(),
            final(self).file() == old(self).file(),
            match token {
                None => old(self).remaining().len() == 0 && final(self).remaining().len() == 0,
                Some(t) => {
                    &&& old(self).remaining().len() > 0
                    &&& is_token_at(t, old(self).file(), old(self).text(), old(self).remaining()[0])
                    &&& final(self).remaining() == old(self).remaining().drop_first()
                    &&& final(self).read() > old(self).read()
                },
            },
    {
        proof { use_type_invariant(&*self); }
        let ghost text = self.text();
        let ghost first = self.read();
        self.skip_trivia();
        proof {
            use_type_invariant(&*self);
            lemma_trivia_end(text, first);
        }
        let start = self.state.0;
        let location = self.state.1;
        if start >= self.source.len() {
            return None;
        }
        let c = self.source[start];
        let kind = match rune_kind_of(c) {
            Some(kind) => {
                if c == '{' || c == '}' || c == '[' || c == ']' {
                    self.pop();
                } else {
                    self.pop_word();
                }
                kind
            },
            None => {
                self.pop_word();
                proof {
                    use_type_invariant(&*self);
                    lemma_word_end(text, start as int);
                }
                let end = self.state.0;
                let length = end - start;
                let mut all_hex = true;
                let mut k: usize = start;
                while k < end
                    invariant
                        start <= k <= end <= self.source@.len(),
                        all_hex == all_nibbles(self.source@.subrange(start as int, k as int)),
                    decreases end - k,
                {
                    let ghost previous = self.source@.subrange(start as int, k as int);
                    let ghost c = self.source@[k as int];
                    if !is_nibble_char(self.source[k]) {
                        all_hex = false;
                    }
                    k += 1;
                    proof {
                        let extended = self.source@.subrange(start as int, k as int);
                        assert(extended =~= previous.push(c));
                        if all_nibbles(previous) && is_nibble(c) {
                            assert forall|i: int| 0 <= i < extended.len() implies is_nibble(#[trigger] extended[i]) by {
                                if i < previous.len() {
                                    assert(extended[i] == previous[i]);
                                }
                            }
                        }
                        if all_nibbles(extended) {
                            assert forall|i: int| 0 <= i < previous.len() implies is_nibble(#[trigger] previous[i]) by {
                                assert(extended[i] == previous[i]);
                            }
                            assert(is_nibble(extended[extended.len() - 1]));
                        }
                    }
                }
                if (length == 2 || length == 4) && all_hex {
                    TokenKind::Number
                } else {
                    TokenKind::Identifier
                }
            },
        };
        proof {
            use_type_invariant(&*self);
            lemma_word_end(text, start as int);
        }
        let end = self.state.0;
        let slice = vstd::slice::slice_subrange(self.source.as_slice(), start, end);
        let value = crate::text::string_from_chars(slice);
        proof {
            let spans = tokens_from(text, first);
            assert(spans == seq![(token_kind(text, start as int, end as int), start as int, end as int)] + tokens_from(text, end as int));
            assert(spans.drop_first() =~= tokens_from(text, end as int));
        }
        Some(Token { kind, value, location })
    }

    /// Reads the rest of a word: everything up to the next whitespace.
    fn pop_word(&mut self)
        ensures
            final(self).text() == old(self).text(),
            final(self).file() == old(self).file(),
            old(self).read() <= old(self).text().len() ==> final(self).read() == word_end(old(self).text(), old(self).read()),
    {
        proof { use_type_invariant(&*self); }
        loop
            invariant
                self.text() == old(self).text(),
                self.file() == old(self).file(),
                old(self).read() <= self.read() <= self.text().len(),
                word_end(self.text(), old(self).read()) == word_end(self.text(), self.read()),
            ensures
                self.text() == old(self).text(),
                self.file() == old(self).file(),
                word_end(self.text(), old(self).read()) == self.read(),
            decreases self.text().len() - self.read(),
        {
            proof { use_type_invariant(&*self); }
            match self.peek() {
                Some(c) => {
                    if is_whitespace_char(c) {
                        break;
                    }
                },
                None => break,
            }
            self.pop();
        }
    }
}

impl Tokenizer {
    /// All tokens of `source`, attributed to the default file.
    pub fn tokenize_str(source: &str) -> (tokens: Vec<Token>)
        ensures
            tokens_of(tokens@, FileId(0), source@),
    {
        let tokenizer = Tokenizer::new(source);
        tokenizer.collect_tokens()
    }

    /// Registers `source` under `file_path` in `source_map` and returns its tokens.
    pub fn tokenize(source_map: &mut SourceMap, file_path: &str, source: &str) -> (tokens: Vec<Token>)
        ensures
            super::source_map::files_well_formed(final(source_map)@),
            tokens_of(tokens@, registered_id(old(source_map)@, file_path@), source@),
            match super::source_map::file_with_path(old(source_map)@, file_path@) {
                Some(i) => final(source_map)@ == old(source_map)@,
                None => {
                    &&& final(source_map)@.len() == old(source_map)@.len() + 1
                    &&& final(source_map)@.drop_last() == old(source_map)@
                    &&& final(source_map)@.last().id == FileId(old(source_map)@.len() as usize)
                    &&& final(source_map)@.last().path@ == file_path@
                    &&& final(source_map)@.last().source@ == source@
                },
            },
    {
        let file_id = source_map.add_file(file_path, source);
        proof {
            match super::source_map::file_with_path(old(source_map)@, file_path@) {
                Some(i) => {},
                None => {
                    assert(source_map@.drop_last() =~= old(source_map)@);
                },
            }
        }
        Tokenizer::with_file(file_id, source).collect_tokens()
    }

    /// The remaining tokens, in order.
    fn collect_tokens(self) -> (tokens: Vec<Token>)
        requires
            self.read() == 0,
        ensures
            tokens_of(tokens@, self.file(), self.text()),
    {
        let mut tokenizer = self;
        let ghost spans = tokens_from(self.text(), 0);
        let mut tokens: Vec<Token> = Vec::new();
        loop
            invariant
                tokenizer.text() == self.text(),
                tokenizer.file() == self.file(),
                spans == tokens_from(self.text(), 0),
                tokens@.len() <= spans.len(),
                forall|k: int| 0 <= k < tokens@.len() ==> is_token_at(#[trigger] tokens@[k], self.file(), self.text(), spans[k]),
                tokenizer.remaining() == spans.skip(tokens@.len() as int),
            ensures
                tokens_of(tokens@, self.file(), self.text()),
            decreases tokenizer.text().len() - tokenizer.read(),
        {
            proof { use_type_invariant(&tokenizer); }
            let ghost before = tokenizer.remaining();
            match tokenizer.next() {
                Some(token) => {
                    proof {
                        use_type_invariant(&tokenizer);
                        assert(spans.skip(tokens@.len() as int)[0] == spans[tokens@.len() as int]);
                        assert(spans.skip((tokens@.len() + 1) as int) =~= spans.skip(tokens@.len() as int).drop_first());
                    }
                    tokens.push(token);
                },
                None => {
                    break;
                },
            }
        }
        tokens
    }
}

} // verus!
