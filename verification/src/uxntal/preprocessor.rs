use vstd::prelude::*;
use super::assembler::before_slash;
use super::location::Location;
use super::source_map::{files_view, id_for, registered, FileView, SourceMap};
use super::token::{all_well_formed, token_view, tokens_view, well_formed_token, Token, TokenKind, TokenView};
use super::tokenizer::{lemma_source_tokens, lemma_tokens_well_formed, source_tokens, stripped_rune_ascii, Tokenizer};
use crate::shared::file_io::FileLoader;
use crate::text::{chars_of, decimal_text, push_char, push_chars, push_decimal, push_str, string_from_chars, text_eq};

verus! {

/// How deeply macros may expand inside one another.
pub const MAX_MACRO_RECURSION_DEPTH: usize = 32;

/// What went wrong while preprocessing.
#[derive(Debug, PartialEq, Eq)]
pub enum PreprocessorErrorKind {
    MacroRedefinition { name: String },
    ExpectedOpeningBrace,
    MissingClosingBrace,
    UnexpectedClosingBrace,
    RecursionLimitExceeded,
    FailedToReadFile { path: String, message: String },
}

/// The view of a preprocessing error kind.
pub enum PreprocessorFault {
    MacroRedefinition(Seq<char>),
    ExpectedOpeningBrace,
    MissingClosingBrace,
    UnexpectedClosingBrace,
    RecursionLimitExceeded,
    FailedToReadFile(Seq<char>, Seq<char>),
}

pub type PreprocessorFailure = (PreprocessorFault, Location);

pub open spec fn preprocessor_fault(kind: PreprocessorErrorKind) -> PreprocessorFault {
    match kind {
        PreprocessorErrorKind::MacroRedefinition { name } => PreprocessorFault::MacroRedefinition(name@),
        PreprocessorErrorKind::ExpectedOpeningBrace => PreprocessorFault::ExpectedOpeningBrace,
        PreprocessorErrorKind::MissingClosingBrace => PreprocessorFault::MissingClosingBrace,
        PreprocessorErrorKind::UnexpectedClosingBrace => PreprocessorFault::UnexpectedClosingBrace,
        PreprocessorErrorKind::RecursionLimitExceeded => PreprocessorFault::RecursionLimitExceeded,
        PreprocessorErrorKind::FailedToReadFile { path, message } => PreprocessorFault::FailedToReadFile(path@, message@),
    }
}

/// The message of a preprocessing error.
pub open spec fn preprocessor_fault_text(fault: PreprocessorFault) -> Seq<char> {
    match fault {
        PreprocessorFault::MacroRedefinition(name) => "Macro '"@ + name + "' already defined"@,
        PreprocessorFault::ExpectedOpeningBrace => "Expected '{' for macro definition"@,
        PreprocessorFault::MissingClosingBrace => "Expected a closing '}'"@,
        PreprocessorFault::UnexpectedClosingBrace => "Unexpected closing '}'"@,
        PreprocessorFault::RecursionLimitExceeded => "Macro recursion limit exceeded"@,
        PreprocessorFault::FailedToReadFile(path, message) => "Failed to read include file '"@ + path + "': "@ + message,
    }
}

impl PreprocessorErrorKind {
    /// This error placed at `location`.
    pub fn at(self, location: Location) -> (error: PreprocessorError)
        ensures
            error@ == (preprocessor_fault(self), location),
    {
        PreprocessorError { kind: self, location }
    }

    /// The error's message.
    pub fn to_string(&self) -> (text: String)
        ensures
            text@ == preprocessor_fault_text(preprocessor_fault(*self)),
    {
        let mut text = String::new();
        match self {
            PreprocessorErrorKind::MacroRedefinition { name } => {
                push_str(&mut text, "Macro '");
                push_str(&mut text, name.as_str());
                push_str(&mut text, "' already defined");
            },
            PreprocessorErrorKind::ExpectedOpeningBrace => push_str(&mut text, "Expected '{' for macro definition"),
            PreprocessorErrorKind::MissingClosingBrace => push_str(&mut text, "Expected a closing '}'"),
            PreprocessorErrorKind::UnexpectedClosingBrace => push_str(&mut text, "Unexpected closing '}'"),
            PreprocessorErrorKind::RecursionLimitExceeded => push_str(&mut text, "Macro recursion limit exceeded"),
            PreprocessorErrorKind::FailedToReadFile { path, message } => {
                push_str(&mut text, "Failed to read include file '");
                push_str(&mut text, path.as_str());
                push_str(&mut text, "': ");
                push_str(&mut text, message.as_str());
            },
        }
        text
    }
}

/// A preprocessing error and the location of the token that caused it.
#[derive(Debug, PartialEq, Eq)]
pub struct PreprocessorError {
    kind: PreprocessorErrorKind,
    location: Location,
}

impl View for PreprocessorError {
    type V = PreprocessorFailure;

    closed spec fn view(&self) -> PreprocessorFailure {
        (preprocessor_fault(self.kind), self.location)
    }
}

impl PreprocessorError {
    pub fn new(kind: PreprocessorErrorKind, location: Location) -> (error: Self)
        ensures
            error@ == (preprocessor_fault(kind), location),
    {
        PreprocessorError { kind, location }
    }

    pub fn location(&self) -> (location: Location)
        ensures
            location == self@.1,
    {
        self.location
    }

    pub fn kind(&self) -> (kind: &PreprocessorErrorKind)
        ensures
            preprocessor_fault(*kind) == self@.0,
    {
        &self.kind
    }

    /// The error's message: that of its kind.
    pub fn to_string(&self) -> (text: String)
        ensures
            text@ == preprocessor_fault_text(self@.0),
    {
        self.kind.to_string()
    }

    /// A full report of this error with the file and source registered in `source_map`.
    pub fn format_error(&self, source_map: &SourceMap) -> (report: String)
        ensures
            report@ == super::source_map::error_report_text(source_map@, self@.1, preprocessor_fault_text(self@.0)),
    {
        let message = self.to_string();
        source_map.format_error(self.location, message.as_str())
    }
}

/// The kinds of reference rune that can open a lambda when the token ends with `{`.
pub open spec fn lambda_rune_kind(kind: TokenKind) -> bool {
    kind is JumpConditional || kind is JumpImmediate || kind is LiteralAbsolute || kind is LiteralRelative
        || kind is LiteralZeroPage || kind is RawAbsolute || kind is RawZeroPage || kind is RawRelative
}

/// A token that opens a lambda: a bare `{`, or a reference rune followed by `{` at its end.
pub open spec fn is_opening_lambda(token: TokenView) -> bool {
    token.0 is BraceOpen || (token.1.len() > 0 && token.1.last() == '{' && lambda_rune_kind(token.0))
}

/// The name of the lambda label numbered `counter`: `anon_N__`.
pub open spec fn lambda_label(counter: usize) -> Seq<char> {
    "anon_"@ + decimal_text(counter as nat) + "__"@
}

/// The rune that opens a lambda of this kind.
pub open spec fn lambda_rune(kind: TokenKind) -> char {
    match kind {
        TokenKind::JumpConditional => '?',
        TokenKind::JumpImmediate => '!',
        TokenKind::LiteralAbsolute => ';',
        TokenKind::LiteralRelative => ',',
        TokenKind::LiteralZeroPage => '.',
        TokenKind::RawAbsolute => '=',
        TokenKind::RawZeroPage => '-',
        _ => '_',
    }
}

/// The token that replaces a lambda opener: a bare `{` becomes a call of the lambda label
/// (`/label`); a rune opener becomes a reference to it (`?&label` and the like). Any other token
/// keeps its kind and has its final `{` replaced by `&label`.
pub open spec fn opened_lambda(token: TokenView, label: Seq<char>) -> TokenView {
    if token.0 is BraceOpen {
        (TokenKind::Identifier, seq!['/'] + label, token.2)
    } else if lambda_rune_kind(token.0) {
        (token.0, seq![lambda_rune(token.0), '&'] + label, token.2)
    } else {
        let prefix = if token.1.len() > 0 && token.1.last() == '{' { token.1.drop_last() } else { token.1 };
        (token.0, prefix + seq!['&'] + label, token.2)
    }
}

/// The token that closes a lambda: the definition of its label (`&label`).
pub open spec fn closed_lambda(location: Location, label: Seq<char>) -> TokenView {
    (TokenKind::Sublabel, seq!['&'] + label, location)
}

pub proof fn lemma_lambda_tokens_well_formed(token: TokenView, label: Seq<char>, location: Location)
    ensures
        is_opening_lambda(token) ==> well_formed_token(opened_lambda(token, label)),
        well_formed_token(closed_lambda(location, label)),
{
}

/// Every macro body is well formed.
pub open spec fn table_well_formed(macros: MacroTable) -> bool {
    forall|i: int, k: int| 0 <= i < macros.len() && 0 <= k < macros[i].1.len() ==> well_formed_token(#[trigger] macros[i].1[k])
}

/// Whether `token` opens a lambda.
pub fn is_opening_lambda_token(token: &Token) -> (opening: bool)
    ensures
        opening == is_opening_lambda(token_view(*token)),
{
    if token.kind == TokenKind::BraceOpen {
        return true;
    }
    let chars = chars_of(token.value.as_str());
    let n = chars.len();
    n > 0 && chars[n - 1] == '{' && (token.kind == TokenKind::JumpConditional || token.kind == TokenKind::JumpImmediate
        || token.kind == TokenKind::LiteralAbsolute || token.kind == TokenKind::LiteralRelative
        || token.kind == TokenKind::LiteralZeroPage || token.kind == TokenKind::RawAbsolute
        || token.kind == TokenKind::RawZeroPage || token.kind == TokenKind::RawRelative)
}

/// The token that replaces the lambda opener `token`, for the lambda labelled `label_name`.
pub fn transform_opening_lambda(token: &Token, label_name: &str) -> (opened: Token)
    ensures
        token_view(opened) == opened_lambda(token_view(*token), label_name@),
{
    let mut value = String::new();
    if token.kind == TokenKind::BraceOpen {
        push_char(&mut value, '/');
        push_str(&mut value, label_name);
        return Token { kind: TokenKind::Identifier, value, location: token.location };
    }
    let rune = match token.kind {
        TokenKind::JumpConditional => Some('?'),
        TokenKind::JumpImmediate => Some('!'),
        TokenKind::LiteralAbsolute => Some(';'),
        TokenKind::LiteralRelative => Some(','),
        TokenKind::LiteralZeroPage => Some('.'),
        TokenKind::RawAbsolute => Some('='),
        TokenKind::RawZeroPage => Some('-'),
        TokenKind::RawRelative => Some('_'),
        _ => None,
    };
    match rune {
        Some(r) => {
            push_char(&mut value, r);
            push_char(&mut value, '&');
            push_str(&mut value, label_name);
            assert(value@ =~= seq![lambda_rune(token.kind), '&'] + label_name@);
        },
        None => {
            let chars = chars_of(token.value.as_str());
            let n = chars.len();
            let prefix_len = if n > 0 && chars[n - 1] == '{' { n - 1 } else { n };
            let prefix = vstd::slice::slice_subrange(chars.as_slice(), 0, prefix_len);
            push_chars(&mut value, prefix);
            push_char(&mut value, '&');
            push_str(&mut value, label_name);
            assert(value@ =~= (if n > 0 && chars@[n - 1] == '{' { token.value@.drop_last() } else { token.value@ }) + seq!['&'] + label_name@);
        },
    }
    Token { kind: token.kind, value, location: token.location }
}

/// The state of the lambda pass after `tokens`: the output so far, the open lambdas (label and
/// where it opened) and the counter; or the first error with the counter reached.
pub open spec fn lambda_state(tokens: Seq<TokenView>, counter: usize) -> Result<
    (Seq<TokenView>, Seq<(Seq<char>, Location)>, usize),
    (PreprocessorFailure, usize),
>
    decreases tokens.len(),
{
    if tokens.len() == 0 {
        Ok((seq![], seq![], counter))
    } else {
        match lambda_state(tokens.drop_last(), counter) {
            Err(failure) => Err(failure),
            Ok((output, open, count)) => {
                let token = tokens.last();
                if is_opening_lambda(token) {
                    let next = crate::uxntal::tokenizer::saturating_inc(count);
                    let label = lambda_label(next);
                    Ok((output.push(opened_lambda(token, label)), open.push((label, token.2)), next))
                } else if token.0 is BraceClose {
                    if open.len() == 0 {
                        Err(((PreprocessorFault::UnexpectedClosingBrace, token.2), count))
                    } else {
                        Ok((output.push(closed_lambda(token.2, open.last().0)), open.drop_last(), count))
                    }
                } else {
                    Ok((output.push(token), open, count))
                }
            },
        }
    }
}

/// The lambda pass over `tokens`: every lambda opener is replaced by a reference to a fresh
/// label and its closing brace by that label's definition; or the first error, with the counter
/// reached.
pub open spec fn lambda_pass(tokens: Seq<TokenView>, counter: usize) -> Result<(Seq<TokenView>, usize), (PreprocessorFailure, usize)> {
    match lambda_state(tokens, counter) {
        Err(failure) => Err(failure),
        Ok((output, open, count)) => if open.len() > 0 {
            Err(((PreprocessorFault::MissingClosingBrace, open.last().1), count))
        } else {
            Ok((output, count))
        },
    }
}

/// A number's decimal digits are at least two for numbers from 10 on.
proof fn lemma_decimal_length(value: nat)
    ensures
        decimal_text(value).len() >= 1,
        value >= 10 ==> decimal_text(value).len() >= 2,
    decreases value,
{
    if value >= 10 {
        lemma_decimal_length(value / 10);
    }
}

/// Different numbers have different decimal digits.
proof fn lemma_decimal_injective(a: nat, b: nat)
    ensures
        decimal_text(a) == decimal_text(b) ==> a == b,
    decreases a + b,
{
    lemma_decimal_length(a);
    lemma_decimal_length(b);
    if decimal_text(a) == decimal_text(b) {
        if a >= 10 && b >= 10 {
            let da = decimal_text(a);
            assert(da.drop_last() == decimal_text(a / 10));
            assert(decimal_text(b).drop_last() == decimal_text(b / 10));
            lemma_decimal_injective(a / 10, b / 10);
            assert(da.last() == ('0' as int + a % 10) as char);
        } else if a < 10 && b < 10 {
            assert(decimal_text(a)[0] == ('0' as int + a) as char);
        }
    }
}

/// Lambdas numbered differently get different labels, so the labels the lambda pass makes
/// never collide with one another.
pub proof fn lemma_lambda_labels_distinct(a: usize, b: usize)
    ensures
        a != b ==> lambda_label(a) != lambda_label(b),
{
    reveal_strlit("anon_");
    reveal_strlit("__");
    if lambda_label(a) == lambda_label(b) {
        let la = lambda_label(a);
        let da = decimal_text(a as nat);
        let db = decimal_text(b as nat);
        assert(la.len() == 5 + da.len() + 2);
        assert(lambda_label(b).len() == 5 + db.len() + 2);
        assert(la.subrange(5, 5 + da.len() as int) =~= da);
        assert(lambda_label(b).subrange(5, 5 + db.len() as int) =~= db);
        lemma_decimal_injective(a as nat, b as nat);
    }
}

/// No token is a brace.
pub open spec fn without_braces(tokens: Seq<TokenView>) -> bool {
    forall|k: int| 0 <= k < tokens.len() ==> !((#[trigger] tokens[k]).0 is BraceOpen) && !(tokens[k].0 is BraceClose)
}

proof fn lemma_lambda_state_without_braces(tokens: Seq<TokenView>, counter: usize)
    ensures
        lambda_state(tokens, counter) matches Ok((output, _, _)) ==> without_braces(output),
    decreases tokens.len(),
{
    if tokens.len() > 0 {
        lemma_lambda_state_without_braces(tokens.drop_last(), counter);
        match lambda_state(tokens.drop_last(), counter) {
            Ok((output, open, count)) => {
                let token = tokens.last();
                match lambda_state(tokens, counter) {
                    Ok((next, _, _)) => {
                        assert forall|k: int| 0 <= k < next.len() implies !((#[trigger] next[k]).0 is BraceOpen) && !(next[k].0 is BraceClose) by {
                            if k < output.len() {
                                assert(next[k] == output[k]);
                            }
                        }
                    },
                    Err(_) => {},
                }
            },
            Err(_) => {},
        }
    }
}

/// The lambda pass leaves no braces: every lambda became a label reference and a label.
pub proof fn lemma_lambda_pass_without_braces(tokens: Seq<TokenView>, counter: usize)
    ensures
        lambda_pass(tokens, counter) matches Ok((output, _)) ==> without_braces(output),
{
    lemma_lambda_state_without_braces(tokens, counter);
}

/// The number of lambda openers in `tokens`.
pub open spec fn opener_count(tokens: Seq<TokenView>) -> nat
    decreases tokens.len(),
{
    if tokens.len() == 0 {
        0
    } else {
        opener_count(tokens.drop_last()) + if is_opening_lambda(tokens.last()) { 1nat } else { 0nat }
    }
}

/// What the lambda pass makes of each token, given the counter it starts from: the lambda
/// opened by the `k`-th opener is numbered `counter + k`, an opener becomes a reference to that
/// lambda's label, and a token that neither opens nor closes a lambda stays as it is.
pub open spec fn lambda_outputs_match(input: Seq<TokenView>, output: Seq<TokenView>, counter: usize) -> bool {
    &&& output.len() == input.len()
    &&& forall|i: int| 0 <= i < input.len() && is_opening_lambda(#[trigger] input[i]) ==> output[i] == opened_lambda(
        input[i],
        lambda_label((counter + opener_count(input.take(i)) + 1) as usize),
    )
    &&& forall|i: int| 0 <= i < input.len() && !is_opening_lambda(#[trigger] input[i]) && !(input[i].0 is BraceClose)
        ==> output[i] == input[i]
}

proof fn lemma_lambda_state_counter(tokens: Seq<TokenView>, counter: usize)
    requires
        counter + opener_count(tokens) <= usize::MAX,
    ensures
        lambda_state(tokens, counter) matches Ok((output, _, count)) ==> {
            &&& count == counter + opener_count(tokens)
            &&& lambda_outputs_match(tokens, output, counter)
        },
    decreases tokens.len(),
{
    if tokens.len() > 0 {
        let before = tokens.drop_last();
        lemma_lambda_state_counter(before, counter);
        assert(tokens.take(tokens.len() - 1) =~= before);
        assert forall|i: int| 0 <= i < before.len() implies before.take(i) =~= tokens.take(i) && before[i] == tokens[i] by {}
    }
}

/// When the lambda pass succeeds, it replaces the tokens one for one and moves the counter on
/// by one per lambda opener; the `k`-th opener becomes a reference to the label of lambda
/// `counter + k`, and every token that neither opens nor closes a lambda is kept. (Where the
/// counter would pass the largest `usize` it stops there instead, so those inputs are left out.)
pub proof fn lemma_lambda_pass_counter(tokens: Seq<TokenView>, counter: usize)
    requires
        counter + opener_count(tokens) <= usize::MAX,
    ensures
        lambda_pass(tokens, counter) matches Ok((output, count)) ==> {
            &&& count == counter + opener_count(tokens)
            &&& lambda_outputs_match(tokens, output, counter)
        },
{
    lemma_lambda_state_counter(tokens, counter);
}

/// No token is an include.
pub open spec fn without_includes(tokens: Seq<TokenView>) -> bool {
    forall|k: int| 0 <= k < tokens.len() ==> (#[trigger] tokens[k]).0 !is Include
}

/// One read of the file loader: the path it was asked for, and its answer, the file's text or
/// a message.
pub type Reply = (Seq<char>, Result<Seq<char>, Seq<char>>);

/// The outcome of include expansion: the tokens or the failure, the registered files after it,
/// and how many replies of the loader it used.
pub type IncludeOutcome = (Result<Seq<TokenView>, PreprocessorFailure>, Seq<FileView>, nat);

/// `outcome` with `done` in front of its tokens and `used` more replies counted.
pub open spec fn after_done(done: Seq<TokenView>, used: nat, outcome: Option<IncludeOutcome>) -> Option<IncludeOutcome> {
    match outcome {
        None => None,
        Some((Ok(rest), files, more)) => Some((Ok(done + rest), files, used + more)),
        Some((Err(failure), files, more)) => Some((Err(failure), files, used + more)),
    }
}

/// Include expansion of `tokens[i..]` with `files` registered, the loader answering the reads
/// in turn with `replies`, and at most `levels` levels of nesting left. An include `~path`
/// asks the loader for `path`; its text is registered under `path` and tokenized, and its
/// includes are expanded in turn. `None` when the replies run out, or when the next one answers
/// another path.
pub open spec fn includes_from(tokens: Seq<TokenView>, i: int, files: Seq<FileView>, replies: Seq<Reply>, levels: nat) -> Option<IncludeOutcome>
    decreases levels, tokens.len() - i,
{
    if i < 0 || i >= tokens.len() {
        Some((Ok(Seq::empty()), files, 0))
    } else if tokens[i].0 is Include {
        let token = tokens[i];
        let path = token.1.skip(1);
        if levels == 0 {
            Some((Err((PreprocessorFault::RecursionLimitExceeded, token.2)), files, 0))
        } else if replies.len() == 0 || replies[0].0 != path {
            None
        } else {
            match replies[0].1 {
                Err(message) => Some((Err((PreprocessorFault::FailedToReadFile(path, message), token.2)), files, 1)),
                Ok(text) => {
                    let included = source_tokens(id_for(files, path), text);
                    match includes_from(included, 0, registered(files, path, text), replies.skip(1), (levels - 1) as nat) {
                        None => None,
                        Some((Err(failure), after, used)) => Some((Err(failure), after, used + 1)),
                        Some((Ok(inner), after, used)) => after_done(
                            inner,
                            used + 1,
                            includes_from(tokens, i + 1, after, replies.skip(used + 1 as int), levels),
                        ),
                    }
                },
            }
        }
    } else {
        after_done(seq![tokens[i]], 0, includes_from(tokens, i + 1, files, replies, levels))
    }
}

/// Include expansion reads exactly the replies `used`: whatever the loader would answer after
/// them, the outcome is `result` with the files `files_after`.
pub open spec fn reads_exactly(
    tokens: Seq<TokenView>,
    files: Seq<FileView>,
    levels: nat,
    used: Seq<Reply>,
    result: Result<Seq<TokenView>, PreprocessorFailure>,
    files_after: Seq<FileView>,
) -> bool {
    forall|rest: Seq<Reply>| #[trigger] includes_from(tokens, 0, files, used + rest, levels) == Some((result, files_after, used.len()))
}

/// The answer of a read as it stands in a reply.
pub open spec fn answer_view(answer: Result<String, String>) -> Result<Seq<char>, Seq<char>> {
    match answer {
        Ok(text) => Ok(text@),
        Err(message) => Err(message@),
    }
}

/// `reply` is what a real call of the loader's `read` answered: the call was asked for the path
/// of `reply` and returned what `reply` holds.
pub open spec fn read_call<L: FileLoader>(reply: Reply) -> bool {
    exists|loader: &mut L, path: &str, answer: Result<String, String>| {
        &&& path@ == reply.0 && answer_view(answer) == reply.1
        &&& call_ensures(L::read, (loader, path), answer)
    }
}

/// Each of `replies` is what a real call of the loader's `read` answered.
pub open spec fn read_by<L: FileLoader>(replies: Seq<Reply>) -> bool {
    forall|k: int| 0 <= k < replies.len() ==> #[trigger] read_call::<L>(replies[k])
}

/// The outcome in the shape of a preprocessor result.
pub open spec fn include_result(result: Result<Vec<Token>, PreprocessorError>) -> Result<Seq<TokenView>, PreprocessorFailure> {
    match result {
        Ok(out) => Ok(tokens_view(out@)),
        Err(error) => Err(error@),
    }
}

/// The macro pass and then the lambda pass over `tokens`, starting from the given macros, scope
/// and lambda counter.
pub open spec fn expansion(tokens: Seq<TokenView>, macros: MacroTable, scope: Seq<char>, counter: usize) -> Result<Seq<TokenView>, PreprocessorFailure> {
    match macro_pass(tokens, 0, macros, scope) {
        Err((failure, _)) => Err(failure),
        Ok((expanded, _)) => match lambda_pass(expanded, counter) {
            Ok((output, _)) => Ok(output),
            Err((failure, _)) => Err(failure),
        },
    }
}

/// Preprocessing after include expansion gave `included`: its failure, or the expansion of its
/// tokens.
pub open spec fn preprocessed(included: Result<Seq<TokenView>, PreprocessorFailure>, macros: MacroTable, scope: Seq<char>, counter: usize) -> Result<Seq<TokenView>, PreprocessorFailure> {
    match included {
        Err(failure) => Err(failure),
        Ok(tokens) => expansion(tokens, macros, scope, counter),
    }
}

/// The macros, scope and lambda counter that preprocessing leaves after include expansion gave
/// `included`: unchanged where that failed; else the macros and scope the macro pass ends with,
/// and the counter the lambda pass ends with where the macro pass succeeded.
pub open spec fn preprocessed_state(
    included: Result<Seq<TokenView>, PreprocessorFailure>,
    macros: MacroTable,
    scope: Seq<char>,
    counter: usize,
) -> (MacroTable, Seq<char>, usize) {
    match included {
        Err(_) => (macros, scope, counter),
        Ok(tokens) => match macro_pass(tokens, 0, macros, scope) {
            Err((_, state)) => (state.0, state.1, counter),
            Ok((expanded, state)) => match lambda_pass(expanded, counter) {
                Ok((_, count)) => (state.0, state.1, count),
                Err((_, count)) => (state.0, state.1, count),
            },
        },
    }
}

/// Preprocessing is the include pass, then the macro pass, then the lambda pass, stopping at the
/// first failure: for the same outcome of the include pass, the result and the macros, scope and
/// counter left behind are those of the passes one after another, each starting where the one
/// before ended (`parse_includes` keeps the macros, scope and counter; `expand_macros` is
/// `macro_pass` from them; `expand_lambdas` is `lambda_pass` from the counter).
pub proof fn lemma_preprocessing_chains_the_passes(
    included: Result<Seq<TokenView>, PreprocessorFailure>,
    macros: MacroTable,
    scope: Seq<char>,
    counter: usize,
)
    ensures
        match included {
            Err(failure) => preprocessed(included, macros, scope, counter) == Err::<Seq<TokenView>, PreprocessorFailure>(failure)
                && preprocessed_state(included, macros, scope, counter) == (macros, scope, counter),
            Ok(tokens) => match macro_pass(tokens, 0, macros, scope) {
                Err((failure, state)) => preprocessed(included, macros, scope, counter) == Err::<Seq<TokenView>, PreprocessorFailure>(failure)
                    && preprocessed_state(included, macros, scope, counter) == (state.0, state.1, counter),
                Ok((expanded, state)) => match lambda_pass(expanded, counter) {
                    Ok((output, count)) => preprocessed(included, macros, scope, counter) == Ok::<Seq<TokenView>, PreprocessorFailure>(output)
                        && preprocessed_state(included, macros, scope, counter) == (state.0, state.1, count),
                    Err((failure, count)) => preprocessed(included, macros, scope, counter) == Err::<Seq<TokenView>, PreprocessorFailure>(failure)
                        && preprocessed_state(included, macros, scope, counter) == (state.0, state.1, count),
                },
            },
        },
{
}

/// The macros by name, in definition order, with their bodies.
pub type MacroTable = Seq<(Seq<char>, Seq<TokenView>)>;

/// The body of the macro named `name`.
pub open spec fn macro_body(macros: MacroTable, name: Seq<char>) -> Option<Seq<TokenView>>
    decreases macros.len(),
{
    if macros.len() == 0 {
        None
    } else if macros.last().0 == name {
        Some(macros.last().1)
    } else {
        macro_body(macros.drop_last(), name)
    }
}

/// Token kinds that are never macro calls.
pub open spec fn never_a_macro(kind: TokenKind) -> bool {
    !(kind is Number || kind is OpCode || kind is Identifier || kind is Unknown)
}

/// The macro a token calls: `/name` first names the macro `scope/name`; otherwise the token's
/// whole text names the macro.
pub open spec fn resolve_macro(macros: MacroTable, scope: Seq<char>, token: TokenView) -> Option<Seq<char>> {
    if never_a_macro(token.0) {
        None
    } else if token.1.len() > 0 && token.1[0] == '/' && macro_body(macros, scope + seq!['/'] + token.1.skip(1)) is Some {
        Some(scope + seq!['/'] + token.1.skip(1))
    } else if macro_body(macros, token.1) is Some {
        Some(token.1)
    } else {
        None
    }
}

/// The expansion of a call of macro `name` at nesting depth `depth`: its body with the macro
/// calls in it expanded in turn; refused beyond the depth limit.
pub open spec fn expand_call(
    macros: MacroTable,
    scope: Seq<char>,
    name: Seq<char>,
    location: Location,
    depth: int,
) -> Result<Seq<TokenView>, PreprocessorFailure>
    decreases 33 - depth, 1int, 0int,
{
    if depth > MAX_MACRO_RECURSION_DEPTH || depth < 0 {
        Err((PreprocessorFault::RecursionLimitExceeded, location))
    } else {
        match macro_body(macros, name) {
            Some(body) => expand_body(macros, scope, body, depth),
            None => Ok(seq![]),
        }
    }
}

/// The expansion of the tokens of a macro body met at depth `depth`.
pub open spec fn expand_body(
    macros: MacroTable,
    scope: Seq<char>,
    body: Seq<TokenView>,
    depth: int,
) -> Result<Seq<TokenView>, PreprocessorFailure>
    decreases 33 - depth, 0int, body.len(),
{
    if depth > MAX_MACRO_RECURSION_DEPTH || depth < 0 || body.len() == 0 {
        Ok(seq![])
    } else {
        match expand_body(macros, scope, body.drop_last(), depth) {
            Err(failure) => Err(failure),
            Ok(done) => {
                let token = body.last();
                match resolve_macro(macros, scope, token) {
                    Some(nested) => match expand_call(macros, scope, nested, token.2, depth + 1) {
                        Ok(more) => Ok(done + more),
                        Err(failure) => Err(failure),
                    },
                    None => Ok(done.push(token)),
                }
            },
        }
    }
}

/// The body of a macro definition from token `j` on, read at brace depth `depth`: where it ends,
/// its tokens, and whether its closing brace was found.
pub open spec fn scan_body(tokens: Seq<TokenView>, j: int, depth: nat) -> (int, Seq<TokenView>, bool)
    decreases tokens.len() - j,
{
    if j < 0 || j >= tokens.len() {
        (tokens.len() as int, seq![], false)
    } else {
        let token = tokens[j];
        if token.0 is BraceClose {
            if depth <= 1 {
                (j + 1, seq![], true)
            } else {
                let (end, body, closed) = scan_body(tokens, j + 1, (depth - 1) as nat);
                (end, seq![token] + body, closed)
            }
        } else if is_opening_lambda(token) {
            let (end, body, closed) = scan_body(tokens, j + 1, depth + 1);
            (end, seq![token] + body, closed)
        } else {
            let (end, body, closed) = scan_body(tokens, j + 1, depth);
            (end, seq![token] + body, closed)
        }
    }
}

pub proof fn lemma_scan_body(tokens: Seq<TokenView>, j: int, depth: nat)
    requires
        0 <= j <= tokens.len(),
    ensures
        j <= scan_body(tokens, j, depth).0 <= tokens.len(),
        scan_body(tokens, j, depth).2 ==> j < scan_body(tokens, j, depth).0,
    decreases tokens.len() - j,
{
    if j < tokens.len() {
        let token = tokens[j];
        if token.0 is BraceClose {
            if depth > 1 {
                lemma_scan_body(tokens, j + 1, (depth - 1) as nat);
            }
        } else if is_opening_lambda(token) {
            lemma_scan_body(tokens, j + 1, depth + 1);
        } else {
            lemma_scan_body(tokens, j + 1, depth);
        }
    }
}

/// A token whose leading rune is stripped: it has one, and it takes one byte.
pub open spec fn has_ascii_rune(token: TokenView) -> bool {
    token.1.len() > 0 && (token.1[0] as u32) < 0x80
}

/// `before` followed by the output of `rest`, with the state `rest` ends in; or the error of `rest`.
pub open spec fn prepend_output<S>(
    before: Seq<TokenView>,
    rest: Result<(Seq<TokenView>, S), (PreprocessorFailure, S)>,
) -> Result<(Seq<TokenView>, S), (PreprocessorFailure, S)> {
    match rest {
        Ok((output, state)) => Ok((before + output, state)),
        Err(failure) => Err(failure),
    }
}

/// The macro pass from token `i` on, with the macros and scope met so far: macro definitions
/// are recorded and removed, labels set the scope, and macro calls are replaced by their
/// expansion. The result carries the macros and scope at its end, also on error.
pub open spec fn macro_pass(
    tokens: Seq<TokenView>,
    i: int,
    macros: MacroTable,
    scope: Seq<char>,
) -> Result<(Seq<TokenView>, (MacroTable, Seq<char>)), (PreprocessorFailure, (MacroTable, Seq<char>))>
    decreases tokens.len() - i,
{
    if i < 0 || i >= tokens.len() {
        Ok((seq![], (macros, scope)))
    } else {
        let token = tokens[i];
        if token.0 is MacroDefinition {
            let name = token.1.skip(1);
            if macro_body(macros, name) is Some {
                Err(((PreprocessorFault::MacroRedefinition(name), token.2), (macros, scope)))
            } else if i + 1 >= tokens.len() || !(tokens[i + 1].0 is BraceOpen) {
                Err(((PreprocessorFault::ExpectedOpeningBrace, token.2), (macros, scope)))
            } else {
                let (end, body, closed) = scan_body(tokens, i + 2, 1);
                proof {
                    lemma_scan_body(tokens, i + 2, 1);
                }
                if !closed {
                    Err(((PreprocessorFault::MissingClosingBrace, tokens[i + 1].2), (macros, scope)))
                } else {
                    macro_pass(tokens, end, macros.push((name, body)), scope)
                }
            }
        } else if token.0 is Label {
            prepend_output(seq![token], macro_pass(tokens, i + 1, macros, before_slash(token.1.skip(1))))
        } else {
            match resolve_macro(macros, scope, token) {
                Some(name) => match expand_call(macros, scope, name, token.2, 1) {
                    Err(failure) => Err((failure, (macros, scope))),
                    Ok(expanded) => prepend_output(expanded, macro_pass(tokens, i + 1, macros, scope)),
                },
                None => prepend_output(seq![token], macro_pass(tokens, i + 1, macros, scope)),
            }
        }
    }
}

/// Expands includes, macros and lambdas in a token stream.
pub struct Preprocessor<L> {
    file_loader: L,
    macros: Vec<(String, Vec<Token>)>,
    scope: String,
    lambda_counter: usize,
}

pub open spec fn macro_table_view(macros: Seq<(String, Vec<Token>)>) -> MacroTable {
    macros.map_values(|entry: (String, Vec<Token>)| (entry.0@, tokens_view(entry.1@)))
}

fn lambda_label_string(counter: usize) -> (label: String)
    ensures
        label@ == lambda_label(counter),
{
    let mut label = String::new();
    push_str(&mut label, "anon_");
    push_decimal(&mut label, counter);
    push_str(&mut label, "__");
    label
}

impl<L: FileLoader> Preprocessor<L> {
    /// The macros defined so far.
    pub closed spec fn macro_table(&self) -> MacroTable {
        macro_table_view(self.macros@)
    }

    /// The scope of the last label met.
    pub closed spec fn current_scope(&self) -> Seq<char> {
        self.scope@
    }

    /// The number of the last lambda label made.
    pub closed spec fn counter(&self) -> usize {
        self.lambda_counter
    }

    pub closed spec fn loader(&self) -> L {
        self.file_loader
    }

    pub fn new(file_loader: L) -> (preprocessor: Self)
        ensures
            preprocessor.macro_table() == MacroTable::empty(),
            preprocessor.current_scope() == "on-reset"@,
            preprocessor.counter() == 0,
            preprocessor.loader() == file_loader,
    {
        let mut scope = String::new();
        push_str(&mut scope, "on-reset");
        let preprocessor = Preprocessor { file_loader, macros: Vec::new(), scope, lambda_counter: 0 };
        assert(preprocessor.macro_table() =~= MacroTable::empty());
        preprocessor
    }

    pub fn macros(&self) -> (macros: &Vec<(String, Vec<Token>)>)
        ensures
            macro_table_view(macros@) == self.macro_table(),
    {
        &self.macros
    }

    pub fn scope(&self) -> (scope: &str)
        ensures
            scope@ == self.current_scope(),
    {
        self.scope.as_str()
    }

    pub fn lambda_counter(&self) -> (counter: usize)
        ensures
            counter == self.counter(),
    {
        self.lambda_counter
    }

    /// Replaces lambdas (`{ ... }`, `?{ ... }`, `!{ ... }` and the other reference runes followed
    /// by `{`) with references to fresh labels `anon_N__` and definitions of those labels where
    /// they close.
    pub fn expand_lambdas(&mut self, tokens: &[Token]) -> (result: Result<Vec<Token>, PreprocessorError>)
        ensures
            all_well_formed(tokens@) ==> (result matches Ok(out) ==> all_well_formed(out@)),
            final(self).macro_table() == old(self).macro_table(),
            final(self).current_scope() == old(self).current_scope(),
            final(self).loader() == old(self).loader(),
            match lambda_pass(tokens_view(tokens@), old(self).counter()) {
                Ok((output, count)) => result matches Ok(out) && tokens_view(out@) == output && final(self).counter() == count,
                Err((failure, count)) => result matches Err(error) && error@ == failure && final(self).counter() == count,
            },
    {
        let ghost start = old(self).counter();
        let ghost input = tokens_view(tokens@);
        let mut output: Vec<Token> = Vec::new();
        let mut open: Vec<(String, Location)> = Vec::new();
        let mut index: usize = 0;
        while index < tokens.len()
            invariant
                index <= tokens@.len(),
                input == tokens_view(tokens@),
                start == old(self).counter(),
                self.macro_table() == old(self).macro_table(),
                self.current_scope() == old(self).current_scope(),
                self.loader() == old(self).loader(),
                all_well_formed(tokens@) ==> all_well_formed(output@),
                lambda_state(input.take(index as int), start) matches Ok((out, stack, count))
                    && tokens_view(output@) == out
                    && stack == open@.map_values(|entry: (String, Location)| (entry.0@, entry.1))
                    && count == self.lambda_counter,
            decreases tokens@.len() - index,
        {
            let token = &tokens[index];
            proof {
                assert(input.take(index + 1).drop_last() =~= input.take(index as int));
                assert(input.take(index + 1).last() == token_view(*token));
            }
            if is_opening_lambda_token(token) {
                self.lambda_counter = self.lambda_counter.saturating_add(1);
                let label_name = lambda_label_string(self.lambda_counter);
                output.push(transform_opening_lambda(token, label_name.as_str()));
                open.push((label_name, token.location));
            } else if token.kind == TokenKind::BraceClose {
                match open.pop() {
                    Some((label_name, _)) => {
                        let mut value = String::new();
                        push_char(&mut value, '&');
                        push_str(&mut value, label_name.as_str());
                        output.push(Token { kind: TokenKind::Sublabel, value, location: token.location });
                    },
                    None => {
                        proof {
                            assert(open@.len() == 0);
                            assert(lambda_state(input.take(index + 1), start) == Err::<
                                (Seq<TokenView>, Seq<(Seq<char>, Location)>, usize),
                                (PreprocessorFailure, usize),
                            >(((PreprocessorFault::UnexpectedClosingBrace, token.location), self.lambda_counter)));
                            lemma_lambda_error(input, index as int + 1, start);
                        }
                        let error = PreprocessorErrorKind::UnexpectedClosingBrace.at(token.location);
                        return Err(error);
                    },
                }
            } else {
                output.push(token.clone());
            }
            proof {
                if all_well_formed(tokens@) {
                    let last = output@.len() - 1;
                    lemma_lambda_tokens_well_formed(token_view(*token), lambda_label(self.lambda_counter), token.location);
                    assert(well_formed_token(token_view(tokens@[index as int])));
                    assert forall|k: int| 0 <= k < output@.len() implies well_formed_token(#[trigger] token_view(output@[k])) by {
                        if k == last {
                            let open_view = lambda_state(input.take(index as int), start)->Ok_0.1;
                            if token.kind == TokenKind::BraceClose && !is_opening_lambda(token_view(*token)) {
                                lemma_lambda_tokens_well_formed(token_view(*token), open_view.last().0, token.location);
                            }
                        }
                    }
                }
                assert(tokens_view(output@) =~= lambda_state(input.take(index + 1), start)->Ok_0.0);
                assert(open@.map_values(|entry: (String, Location)| (entry.0@, entry.1)) =~= lambda_state(input.take(index + 1), start)->Ok_0.1);
            }
            index += 1;
        }
        assert(input.take(index as int) =~= input);
        let open_count = open.len();
        if open_count > 0 {
            let location = open[open_count - 1].1;
            return Err(PreprocessorErrorKind::MissingClosingBrace.at(location));
        }
        Ok(output)
    }

    /// The same as `expand_lambdas`.
    pub fn expand_anonymous_labels(&mut self, tokens: &[Token]) -> (result: Result<Vec<Token>, PreprocessorError>)
        ensures
            final(self).macro_table() == old(self).macro_table(),
            final(self).current_scope() == old(self).current_scope(),
            final(self).loader() == old(self).loader(),
            match lambda_pass(tokens_view(tokens@), old(self).counter()) {
                Ok((output, count)) => result matches Ok(out) && tokens_view(out@) == output && final(self).counter() == count,
                Err((failure, count)) => result matches Err(error) && error@ == failure && final(self).counter() == count,
            },
    {
        self.expand_lambdas(tokens)
    }
}

/// The position of the macro named `name`: the last one of that name.
fn find_macro(macros: &Vec<(String, Vec<Token>)>, name: &str) -> (found: Option<usize>)
    ensures
        match found {
            Some(i) => i < macros@.len() && macro_body(macro_table_view(macros@), name@) == Some(tokens_view(macros@[i as int].1@)),
            None => macro_body(macro_table_view(macros@), name@) is None,
        },
{
    let mut found: Option<usize> = None;
    let mut index: usize = 0;
    while index < macros.len()
        invariant
            index <= macros@.len(),
            match found {
                Some(i) => i < index && macro_body(macro_table_view(macros@.take(index as int)), name@) == Some(tokens_view(macros@[i as int].1@)),
                None => macro_body(macro_table_view(macros@.take(index as int)), name@) is None,
            },
        decreases macros@.len() - index,
    {
        assert(macro_table_view(macros@.take(index + 1)).drop_last() =~= macro_table_view(macros@.take(index as int)));
        if text_eq(macros[index].0.as_str(), name) {
            found = Some(index);
        }
        index += 1;
    }
    assert(macros@.take(index as int) =~= macros@);
    found
}

/// `scope/name`, with the first character of `value` (a `/`) dropped.
fn scoped_macro_name(scope: &str, value: &[char]) -> (name: String)
    requires
        value@.len() > 0,
    ensures
        name@ == scope@ + seq!['/'] + value@.skip(1),
{
    let rest = vstd::slice::slice_subrange(value, 1, value.len());
    assert(rest@ =~= value@.skip(1));
    let mut name = String::new();
    push_str(&mut name, scope);
    push_char(&mut name, '/');
    push_chars(&mut name, rest);
    name
}

impl<L: FileLoader> Preprocessor<L> {
    /// The macro that `token` calls, if any.
    fn resolve_macro_name(&self, token: &Token) -> (name: Option<String>)
        ensures
            match name {
                Some(n) => resolve_macro(self.macro_table(), self.current_scope(), token_view(*token)) == Some(n@),
                None => resolve_macro(self.macro_table(), self.current_scope(), token_view(*token)) is None,
            },
    {
        let kind = token.kind;
        if !(kind == TokenKind::Number || kind == TokenKind::OpCode || kind == TokenKind::Identifier || kind == TokenKind::Unknown) {
            return None;
        }
        let chars = chars_of(token.value.as_str());
        if chars.len() > 0 && chars[0] == '/' {
            let scoped = scoped_macro_name(self.scope.as_str(), chars.as_slice());
            if find_macro(&self.macros, scoped.as_str()).is_some() {
                return Some(scoped);
            }
        }
        if find_macro(&self.macros, token.value.as_str()).is_some() {
            return Some(token.value.clone());
        }
        None
    }

    /// Expands includes, then macros, then lambdas.
    pub fn run(&mut self, source_map: &mut SourceMap, tokens: &[Token]) -> (result: Result<Vec<Token>, PreprocessorError>)
        requires
            forall|k: int| 0 <= k < tokens@.len() ==> stripped_rune_ascii(#[trigger] token_view(tokens@[k])),
        ensures
            without_includes(tokens_view(tokens@)) ==> match expansion(tokens_view(tokens@), old(self).macro_table(), old(self).current_scope(), old(self).counter()) {
                Ok(output) => result matches Ok(out) && tokens_view(out@) == output,
                Err(failure) => result matches Err(error) && error@ == failure,
            },
            result matches Ok(out) ==> exists|included: Seq<TokenView>| without_includes(included)
                && expansion(included, old(self).macro_table(), old(self).current_scope(), old(self).counter()) == Ok::<Seq<TokenView>, PreprocessorFailure>(tokens_view(out@)),
            (all_well_formed(tokens@) && table_well_formed(old(self).macro_table())) ==> (result matches Ok(out) ==> all_well_formed(out@)),
            exists|used: Seq<Reply>, included: Result<Seq<TokenView>, PreprocessorFailure>|
                #[trigger] reads_exactly(tokens_view(tokens@), files_view(old(source_map)@), usize::MAX as nat, used, included, files_view(final(source_map)@))
                && read_by::<L>(used) && include_result(result) == preprocessed(included, old(self).macro_table(), old(self).current_scope(), old(self).counter())
                && (final(self).macro_table(), final(self).current_scope(), final(self).counter())
                    == preprocessed_state(included, old(self).macro_table(), old(self).current_scope(), old(self).counter()),
    {
        let ghost files_before = files_view(source_map@);
        let includes = self.parse_includes(source_map, tokens);
        let ghost used = choose|used: Seq<Reply>| #[trigger] reads_exactly(tokens_view(tokens@), files_before, usize::MAX as nat, used,
            include_result(includes), files_view(source_map@)) && read_by::<L>(used);
        let tokens_with_includes = match includes {
            Ok(out) => out,
            Err(error) => {
                assert(!without_includes(tokens_view(tokens@)));
                assert(reads_exactly(tokens_view(tokens@), files_before, usize::MAX as nat, used, include_result(includes), files_view(source_map@)));
                return Err(error);
            },
        };
        let ghost included = tokens_view(tokens_with_includes@);
        let expanded_macros = match self.expand_macros(tokens_with_includes.as_slice()) {
            Ok(out) => out,
            Err(error) => {
                assert(reads_exactly(tokens_view(tokens@), files_before, usize::MAX as nat, used, include_result(includes), files_view(source_map@)));
                return Err(error);
            },
        };
        let result = self.expand_lambdas(expanded_macros.as_slice());
        assert(without_includes(included));
        assert(reads_exactly(tokens_view(tokens@), files_before, usize::MAX as nat, used, include_result(includes), files_view(source_map@)));
        result
    }

    /// Preprocesses `tokens` with a fresh preprocessor reading includes through `file_loader`.
    pub fn preprocess(source_map: &mut SourceMap, tokens: &[Token], file_loader: L) -> (result: Result<Vec<Token>, PreprocessorError>)
        requires
            forall|k: int| 0 <= k < tokens@.len() ==> stripped_rune_ascii(#[trigger] token_view(tokens@[k])),
        ensures
            without_includes(tokens_view(tokens@)) ==> match expansion(tokens_view(tokens@), MacroTable::empty(), "on-reset"@, 0) {
                Ok(output) => result matches Ok(out) && tokens_view(out@) == output,
                Err(failure) => result matches Err(error) && error@ == failure,
            },
            result matches Ok(out) ==> exists|included: Seq<TokenView>| without_includes(included)
                && expansion(included, MacroTable::empty(), "on-reset"@, 0) == Ok::<Seq<TokenView>, PreprocessorFailure>(tokens_view(out@)),
            all_well_formed(tokens@) ==> (result matches Ok(out) ==> all_well_formed(out@)),
            exists|used: Seq<Reply>, included: Result<Seq<TokenView>, PreprocessorFailure>|
                #[trigger] reads_exactly(tokens_view(tokens@), files_view(old(source_map)@), usize::MAX as nat, used, included, files_view(final(source_map)@))
                && read_by::<L>(used) && include_result(result) == preprocessed(included, MacroTable::empty(), "on-reset"@, 0),
    {
        let mut preprocessor = Self::new(file_loader);
        preprocessor.run(source_map, tokens)
    }

    /// Replaces every include token (`~path`) with the tokens of the file it names, read through
    /// the file loader and registered in `source_map`, and the includes within those in turn.
    pub fn parse_includes(&mut self, source_map: &mut SourceMap, tokens: &[Token]) -> (result: Result<Vec<Token>, PreprocessorError>)
        requires
            forall|k: int| 0 <= k < tokens@.len() ==> stripped_rune_ascii(#[trigger] token_view(tokens@[k])),
        ensures
            final(self).macro_table() == old(self).macro_table(),
            final(self).current_scope() == old(self).current_scope(),
            final(self).counter() == old(self).counter(),
            match result {
                Ok(out) => {
                    &&& without_includes(tokens_view(out@))
                    &&& forall|k: int| 0 <= k < out@.len() ==> stripped_rune_ascii(#[trigger] token_view(out@[k]))
                    &&& without_includes(tokens_view(tokens@)) ==> tokens_view(out@) == tokens_view(tokens@)
                },
                Err(error) => (error@.0 is FailedToReadFile || error@.0 is RecursionLimitExceeded)
                    && !without_includes(tokens_view(tokens@)),
            },
            all_well_formed(tokens@) ==> (result matches Ok(out) ==> all_well_formed(out@)),
            exists|used: Seq<Reply>| #[trigger] reads_exactly(tokens_view(tokens@), files_view(old(source_map)@), usize::MAX as nat, used,
                include_result(result), files_view(final(source_map)@)) && read_by::<L>(used),
    {
        self.include_tokens(source_map, tokens, usize::MAX)
    }

    /// Include expansion with at most `levels` further levels of nesting.
    fn include_tokens(&mut self, source_map: &mut SourceMap, tokens: &[Token], levels: usize) -> (result: Result<Vec<Token>, PreprocessorError>)
        requires
            forall|k: int| 0 <= k < tokens@.len() ==> stripped_rune_ascii(#[trigger] token_view(tokens@[k])),
        ensures
            final(self).macro_table() == old(self).macro_table(),
            final(self).current_scope() == old(self).current_scope(),
            final(self).counter() == old(self).counter(),
            match result {
                Ok(out) => {
                    &&& without_includes(tokens_view(out@))
                    &&& forall|k: int| 0 <= k < out@.len() ==> stripped_rune_ascii(#[trigger] token_view(out@[k]))
                    &&& without_includes(tokens_view(tokens@)) ==> tokens_view(out@) == tokens_view(tokens@)
                },
                Err(error) => (error@.0 is FailedToReadFile || error@.0 is RecursionLimitExceeded)
                    && !without_includes(tokens_view(tokens@)),
            },
            all_well_formed(tokens@) ==> (result matches Ok(out) ==> all_well_formed(out@)),
            exists|used: Seq<Reply>| #[trigger] reads_exactly(tokens_view(tokens@), files_view(old(source_map)@), levels as nat, used,
                include_result(result), files_view(final(source_map)@)) && read_by::<L>(used),
        decreases levels,
    {
        let ghost view = tokens_view(tokens@);
        let ghost files_before = files_view(source_map@);
        let ghost mut consumed: Seq<Reply> = Seq::empty();
        let mut output: Vec<Token> = Vec::new();
        let mut index: usize = 0;
        proof {
            assert forall|rest: Seq<Reply>| #[trigger] includes_from(view, 0, files_before, consumed + rest, levels as nat)
                == after_done(tokens_view(output@), consumed.len(), includes_from(view, 0, files_before, rest, levels as nat)) by {
                assert(consumed + rest =~= rest);
                assert(tokens_view(output@) =~= Seq::<TokenView>::empty());
                lemma_after_done_nothing(includes_from(view, 0, files_before, rest, levels as nat));
            }
        }
        while index < tokens.len()
            invariant
                index <= tokens@.len(),
                view == tokens_view(tokens@),
                files_before == files_view(old(source_map)@),
                forall|k: int| 0 <= k < tokens@.len() ==> stripped_rune_ascii(#[trigger] token_view(tokens@[k])),
                self.macro_table() == old(self).macro_table(),
                self.current_scope() == old(self).current_scope(),
                self.counter() == old(self).counter(),
                without_includes(tokens_view(output@)),
                forall|k: int| 0 <= k < output@.len() ==> stripped_rune_ascii(#[trigger] token_view(output@[k])),
                without_includes(tokens_view(tokens@)) ==> tokens_view(output@) == tokens_view(tokens@).take(index as int),
                all_well_formed(tokens@) ==> all_well_formed(output@),
                includes_so_far(view, files_before, levels as nat, consumed, tokens_view(output@), index as int, files_view(source_map@)),
                read_by::<L>(consumed),
            decreases tokens@.len() - index,
        {
            let token = &tokens[index];
            let ghost before = output@;
            let ghost files_now = files_view(source_map@);
            assert(stripped_rune_ascii(token_view(tokens@[index as int])));
            assert(view[index as int] == token_view(*token));
            if token.kind == TokenKind::Include {
                assert(!without_includes(tokens_view(tokens@))) by {
                    assert(tokens_view(tokens@)[index as int].0 is Include);
                }
                if levels == 0 {
                    let error = PreprocessorErrorKind::RecursionLimitExceeded.at(token.location);
                    proof {
                        lemma_include_too_deep(view, index as int, files_now);
                        lemma_includes_fail(view, files_before, levels as nat, consumed, tokens_view(output@), index as int, files_now,
                            Seq::empty(), error@, files_now);
                        lemma_read_by_join::<L>(consumed, Seq::empty());
                    }
                    return Err(error);
                }
                let chars = chars_of(token.value.as_str());
                let path_chars = vstd::slice::slice_subrange(chars.as_slice(), 1, chars.len());
                let path = string_from_chars(path_chars);
                assert(path@ =~= token.value@.skip(1));
                let ghost path_view = path@;
                let path_text: &str = path.as_str();
                let loader: &mut L = &mut self.file_loader;
                let read = L::read;
                let answer = read(loader, path_text);
                let ghost reply: Reply = (path_view, answer_view(answer));
                assert(read_call::<L>(reply));
                let included_file = match answer {
                    Ok(text) => text,
                    Err(message) => {
                        let ghost message_view = message@;
                        let error = PreprocessorErrorKind::FailedToReadFile { path, message }.at(token.location);
                        proof {
                            lemma_include_unreadable(view, index as int, files_now, levels as nat, message_view);
                            lemma_includes_fail(view, files_before, levels as nat, consumed, tokens_view(output@), index as int, files_now,
                                seq![(path_view, Err::<Seq<char>, Seq<char>>(message_view))], error@, files_now);
                            lemma_read_by_join::<L>(consumed, seq![reply]);
                            assert(seq![(path_view, Err::<Seq<char>, Seq<char>>(message_view))] == seq![reply]);
                        }
                        return Err(error);
                    },
                };
                let ghost map_before = source_map@;
                let _ = source_map.files();
                let included_tokens = Tokenizer::tokenize(source_map, path.as_str(), included_file.as_str());
                let ghost files_after = files_view(source_map@);
                let ghost included_view = tokens_view(included_tokens@);
                let ghost first = seq![(path@, Ok::<Seq<char>, Seq<char>>(included_file@))];
                assert(first == seq![reply]);
                proof {
                    lemma_tokens_well_formed(included_tokens@, super::tokenizer::registered_id(map_before, path@), included_file@);
                    lemma_source_tokens(included_tokens@, super::tokenizer::registered_id(map_before, path@), included_file@);
                    lemma_registration_view(map_before, source_map@, path@, included_file@);
                }
                let nested = self.include_tokens(source_map, included_tokens.as_slice(), levels - 1);
                let ghost used_inner = choose|u: Seq<Reply>| #[trigger] reads_exactly(included_view, files_after, (levels - 1) as nat, u,
                    include_result(nested), files_view(source_map@)) && read_by::<L>(u);
                proof {
                    lemma_read_by_join::<L>(first, used_inner);
                    lemma_read_by_join::<L>(consumed, first + used_inner);
                }
                proof {
                    lemma_include_read(view, index as int, files_now, levels as nat, included_file@, used_inner,
                        include_result(nested), files_view(source_map@));
                }
                let recursively_included = match nested {
                    Ok(out) => out,
                    Err(error) => {
                        proof {
                            lemma_includes_fail(view, files_before, levels as nat, consumed, tokens_view(output@), index as int, files_now,
                                first + used_inner, error@, files_view(source_map@));
                        }
                        return Err(error);
                    },
                };
                let ghost inner_view = tokens_view(recursively_included@);
                let ghost output_before = tokens_view(output@);
                let mut k: usize = 0;
                while k < recursively_included.len()
                    invariant
                        k <= recursively_included@.len(),
                        inner_view == tokens_view(recursively_included@),
                        tokens_view(output@) == output_before + inner_view.take(k as int),
                        without_includes(tokens_view(output@)),
                        without_includes(tokens_view(recursively_included@)),
                        forall|j: int| 0 <= j < output@.len() ==> stripped_rune_ascii(#[trigger] token_view(output@[j])),
                        forall|j: int| 0 <= j < recursively_included@.len() ==> stripped_rune_ascii(#[trigger] token_view(recursively_included@[j])),
                        all_well_formed(recursively_included@),
                        all_well_formed(tokens@) ==> all_well_formed(output@),
                    decreases recursively_included@.len() - k,
                {
                    let ghost previous = output@;
                    output.push(recursively_included[k].clone());
                    proof {
                        assert(tokens_view(recursively_included@)[k as int] == token_view(recursively_included@[k as int]));
                        assert(tokens_view(output@) =~= tokens_view(previous).push(token_view(recursively_included@[k as int])));
                        assert(inner_view.take(k + 1) =~= inner_view.take(k as int).push(inner_view[k as int]));
                        assert forall|j: int| 0 <= j < tokens_view(output@).len() implies (#[trigger] tokens_view(output@)[j]).0 !is Include by {
                            if j < previous.len() {
                                assert(output@[j] == previous[j]);
                                assert(tokens_view(previous)[j] == tokens_view(output@)[j]);
                            }
                        }
                        assert forall|j: int| 0 <= j < output@.len() implies stripped_rune_ascii(#[trigger] token_view(output@[j])) by {
                            if j < previous.len() {
                                assert(output@[j] == previous[j]);
                            }
                        }
                        if all_well_formed(tokens@) {
                            assert forall|j: int| 0 <= j < output@.len() implies well_formed_token(#[trigger] token_view(output@[j])) by {
                                if j < previous.len() {
                                    assert(output@[j] == previous[j]);
                                } else {
                                    assert(output@[j] == recursively_included@[k as int]);
                                }
                            }
                        }
                    }
                    k += 1;
                }
                proof {
                    assert(inner_view.take(k as int) =~= inner_view);
                    lemma_includes_advance(view, files_before, levels as nat, consumed, output_before, index as int, files_now,
                        first + used_inner, inner_view, files_view(source_map@));
                    consumed = consumed + (first + used_inner);
                }
            } else {
                output.push(token.clone());
                proof {
                    assert forall|j: int| 0 <= j < tokens_view(output@).len() implies (#[trigger] tokens_view(output@)[j]).0 !is Include by {
                        if j < before.len() {
                            assert(output@[j] == before[j]);
                            assert(tokens_view(before)[j] == tokens_view(output@)[j]);
                        }
                    }
                    assert forall|j: int| 0 <= j < output@.len() implies stripped_rune_ascii(#[trigger] token_view(output@[j])) by {
                        if j < before.len() {
                            assert(output@[j] == before[j]);
                        }
                    }
                    if without_includes(tokens_view(tokens@)) {
                        assert(tokens_view(output@) =~= tokens_view(tokens@).take(index + 1));
                    }
                    if all_well_formed(tokens@) {
                        assert forall|j: int| 0 <= j < output@.len() implies well_formed_token(#[trigger] token_view(output@[j])) by {
                            if j < before.len() {
                                assert(output@[j] == before[j]);
                            } else {
                                assert(output@[j] == tokens@[index as int]);
                            }
                        }
                    }
                    assert(tokens_view(output@) =~= tokens_view(before) + seq![view[index as int]]);
                    lemma_include_plain(view, index as int, files_now, levels as nat);
                    lemma_read_by_join::<L>(consumed, Seq::empty());
                    lemma_includes_advance(view, files_before, levels as nat, consumed, tokens_view(before), index as int, files_now,
                        Seq::empty(), seq![view[index as int]], files_now);
                    consumed = consumed + Seq::empty();
                }
            }
            index += 1;
        }
        proof {
            if without_includes(tokens_view(tokens@)) {
                assert(tokens_view(tokens@).take(index as int) =~= tokens_view(tokens@));
            }
            let done = tokens_view(output@);
            let files_end = files_view(source_map@);
            assert forall|rest: Seq<Reply>| #[trigger] includes_from(view, 0, files_before, consumed + rest, levels as nat)
                == Some((Ok::<Seq<TokenView>, PreprocessorFailure>(done), files_end, consumed.len())) by {
                assert(done + Seq::<TokenView>::empty() =~= done);
            }
            let result: Result<Vec<Token>, PreprocessorError> = Ok(output);
            assert(reads_exactly(view, files_before, levels as nat, consumed, include_result(result), files_end));
        }
        Ok(output)
    }

    /// Records macro definitions, follows the scope of labels, and expands macro calls.
    pub fn expand_macros(&mut self, tokens: &[Token]) -> (result: Result<Vec<Token>, PreprocessorError>)
        requires
            forall|k: int| 0 <= k < tokens@.len() && ((#[trigger] tokens@[k]).kind is MacroDefinition || tokens@[k].kind is Label)
                ==> has_ascii_rune(token_view(tokens@[k])),
        ensures
            (table_well_formed(old(self).macro_table()) && all_well_formed(tokens@)) ==> table_well_formed(final(self).macro_table())
                && (result matches Ok(out) ==> all_well_formed(out@)),
            final(self).counter() == old(self).counter(),
            final(self).loader() == old(self).loader(),
            match macro_pass(tokens_view(tokens@), 0, old(self).macro_table(), old(self).current_scope()) {
                Ok((output, state)) => result matches Ok(out) && tokens_view(out@) == output
                    && state == (final(self).macro_table(), final(self).current_scope()),
                Err((failure, state)) => result matches Err(error) && error@ == failure
                    && state == (final(self).macro_table(), final(self).current_scope()),
            },
    {
        let ghost view = tokens_view(tokens@);
        let ghost whole = macro_pass(view, 0, old(self).macro_table(), old(self).current_scope());
        let mut output: Vec<Token> = Vec::new();
        let mut index: usize = 0;
        assert(prepend_output(Seq::<TokenView>::empty(), whole) == whole) by {
            match whole {
                Ok((o, st)) => { assert(Seq::<TokenView>::empty() + o =~= o); },
                Err(_) => {},
            }
        }
        while index < tokens.len()
            invariant
                index <= tokens@.len(),
                view == tokens_view(tokens@),
                forall|k: int| 0 <= k < tokens@.len() && ((#[trigger] tokens@[k]).kind is MacroDefinition || tokens@[k].kind is Label)
                    ==> has_ascii_rune(token_view(tokens@[k])),
                self.counter() == old(self).counter(),
                self.loader() == old(self).loader(),
                whole == macro_pass(view, 0, old(self).macro_table(), old(self).current_scope()),
                whole == prepend_output(tokens_view(output@), macro_pass(view, index as int, self.macro_table(), self.current_scope())),
                (table_well_formed(old(self).macro_table()) && all_well_formed(tokens@)) ==> table_well_formed(self.macro_table())
                    && all_well_formed(output@),
            decreases tokens@.len() - index,
        {
            let token = &tokens[index];
            let ghost done = tokens_view(output@);
            let ghost table = self.macro_table();
            let ghost scope = self.current_scope();
            assert(view[index as int] == token_view(*token));
            if token.kind == TokenKind::MacroDefinition {
                let chars = chars_of(token.value.as_str());
                let name_chars = vstd::slice::slice_subrange(chars.as_slice(), 1, chars.len());
                assert(name_chars@ =~= token.value@.skip(1));
                let macro_name = string_from_chars(name_chars);
                if find_macro(&self.macros, macro_name.as_str()).is_some() {
                    return Err(PreprocessorErrorKind::MacroRedefinition { name: macro_name }.at(token.location));
                }
                if index + 1 >= tokens.len() || tokens[index + 1].kind != TokenKind::BraceOpen {
                    return Err(PreprocessorErrorKind::ExpectedOpeningBrace.at(token.location));
                }
                let open_brace_location = tokens[index + 1].location;
                let (end, body_tokens, closed) = scan_macro_body(tokens, index + 2);
                if !closed {
                    return Err(PreprocessorErrorKind::MissingClosingBrace.at(open_brace_location));
                }
                proof {
                    lemma_scan_body(view, index + 2, 1);
                }
                self.macros.push((macro_name, body_tokens));
                assert(self.macro_table() =~= table.push((token.value@.skip(1), tokens_view(body_tokens@))));
                proof {
                    if table_well_formed(old(self).macro_table()) && all_well_formed(tokens@) {
                        let new_table = self.macro_table();
                        assert forall|i: int, k: int| 0 <= i < new_table.len() && 0 <= k < new_table[i].1.len()
                            implies well_formed_token(#[trigger] new_table[i].1[k]) by {
                            if i == new_table.len() - 1 {
                                assert(new_table[i].1[k] == token_view(body_tokens@[k]));
                            } else {
                                assert(new_table[i] == table[i]);
                            }
                        }
                    }
                }
                index = end;
            } else if token.kind == TokenKind::Label {
                let chars = chars_of(token.value.as_str());
                let label_chars = vstd::slice::slice_subrange(chars.as_slice(), 1, chars.len());
                assert(label_chars@ =~= token.value@.skip(1));
                let label = string_from_chars(label_chars);
                self.scope = super::assembler::scope_of_label(label.as_str());
                let ghost before_tokens = output@;
                output.push(token.clone());
                proof {
                    lemma_push_well_formed(before_tokens, output@, tokens@, index as int);
                    let rest = macro_pass(view, index + 1, self.macro_table(), self.current_scope());
                    assert(tokens_view(output@) =~= done + seq![view[index as int]]);
                    match rest {
                        Ok((o, st)) => { assert(done + (seq![view[index as int]] + o) =~= tokens_view(output@) + o); },
                        Err(_) => {},
                    }
                }
                index += 1;
            } else {
                match self.resolve_macro_name(token) {
                    Some(macro_name) => {
                        match self.expand_macro_recursive(macro_name.as_str(), token.location, 1) {
                            Ok(inlined) => {
                                let mut k: usize = 0;
                                while k < inlined.len()
                                    invariant
                                        k <= inlined@.len(),
                                        tokens_view(output@) == done + tokens_view(inlined@).take(k as int),
                                        (table_well_formed(old(self).macro_table()) && all_well_formed(tokens@)) ==> all_well_formed(output@)
                                            && all_well_formed(inlined@),
                                    decreases inlined@.len() - k,
                                {
                                    let ghost before = tokens_view(output@);
                                    let ghost before_tokens = output@;
                                    let copy = inlined[k].clone();
                                    output.push(copy);
                                    proof {
                                        lemma_push_well_formed(before_tokens, output@, inlined@, k as int);
                                        assert(tokens_view(output@) =~= before.push(token_view(inlined@[k as int])));
                                        assert(tokens_view(inlined@).take(k + 1) =~= tokens_view(inlined@).take(k as int).push(token_view(inlined@[k as int])));
                                    }
                                    k += 1;
                                }
                                proof {
                                    assert(tokens_view(inlined@).take(k as int) =~= tokens_view(inlined@));
                                    let rest = macro_pass(view, index + 1, table, scope);
                                    match rest {
                                        Ok((o, st)) => { assert(done + (tokens_view(inlined@) + o) =~= tokens_view(output@) + o); },
                                        Err(_) => {},
                                    }
                                }
                            },
                            Err(error) => return Err(error),
                        }
                    },
                    None => {
                        let ghost before_tokens = output@;
                        output.push(token.clone());
                        proof {
                            lemma_push_well_formed(before_tokens, output@, tokens@, index as int);
                            let rest = macro_pass(view, index + 1, table, scope);
                            assert(tokens_view(output@) =~= done + seq![view[index as int]]);
                            match rest {
                                Ok((o, st)) => { assert(done + (seq![view[index as int]] + o) =~= tokens_view(output@) + o); },
                                Err(_) => {},
                            }
                        }
                    },
                }
                index += 1;
            }
        }
        proof {
            assert(tokens_view(output@) + Seq::<TokenView>::empty() =~= tokens_view(output@));
        }
        Ok(output)
    }

    /// The expansion of a call of the macro `macro_name` at `depth`.
    fn expand_macro_recursive(&self, macro_name: &str, call_location: Location, depth: usize) -> (result: Result<Vec<Token>, PreprocessorError>)
        requires
            1 <= depth <= MAX_MACRO_RECURSION_DEPTH + 1,
            macro_body(self.macro_table(), macro_name@) is Some,
        ensures
            match expand_call(self.macro_table(), self.current_scope(), macro_name@, call_location, depth as int) {
                Ok(expanded) => result matches Ok(out) && tokens_view(out@) == expanded,
                Err(failure) => result matches Err(error) && error@ == failure,
            },
            table_well_formed(self.macro_table()) ==> (result matches Ok(out) ==> all_well_formed(out@)),
        decreases MAX_MACRO_RECURSION_DEPTH + 1 - depth,
    {
        if depth > MAX_MACRO_RECURSION_DEPTH {
            return Err(PreprocessorErrorKind::RecursionLimitExceeded.at(call_location));
        }
        let index = match find_macro(&self.macros, macro_name) {
            Some(index) => index,
            None => return Ok(Vec::new()),
        };
        let body = &self.macros[index].1;
        let ghost table = self.macro_table();
        let ghost scope = self.current_scope();
        let ghost body_view = tokens_view(body@);
        let mut expanded: Vec<Token> = Vec::new();
        let mut position: usize = 0;
        while position < body.len()
            invariant
                position <= body@.len(),
                1 <= depth <= MAX_MACRO_RECURSION_DEPTH,
                table == self.macro_table(),
                scope == self.current_scope(),
                body_view == tokens_view(body@),
                macro_body(table, macro_name@) == Some(body_view),
                index < self.macros@.len(),
                body_view == tokens_view(self.macros@[index as int].1@),
                table == macro_table_view(self.macros@),
                table_well_formed(table) ==> all_well_formed(expanded@),
                expand_body(table, scope, body_view.take(position as int), depth as int) matches Ok(done)
                    && tokens_view(expanded@) == done,
            decreases body@.len() - position,
        {
            let token = &body[position];
            proof {
                assert(body_view.take(position + 1).drop_last() =~= body_view.take(position as int));
                assert(body_view.take(position + 1).last() == token_view(*token));
            }
            let ghost done = tokens_view(expanded@);
            match self.resolve_macro_name(token) {
                Some(nested) => {
                    proof {
                        assert(macro_body(table, nested@) is Some);
                    }
                    match self.expand_macro_recursive(nested.as_str(), token.location, depth + 1) {
                        Ok(more) => {
                            let mut k: usize = 0;
                            while k < more.len()
                                invariant
                                    k <= more@.len(),
                                    tokens_view(expanded@) == done + tokens_view(more@).take(k as int),
                                    table_well_formed(table) ==> all_well_formed(expanded@),
                                    table_well_formed(table) ==> all_well_formed(more@),
                                decreases more@.len() - k,
                            {
                                let ghost before = tokens_view(expanded@);
                                let ghost before_tokens = expanded@;
                                let copy = more[k].clone();
                                expanded.push(copy);
                                proof {
                                    assert(tokens_view(expanded@) =~= before.push(token_view(more@[k as int])));
                                    assert(tokens_view(more@).take(k + 1) =~= tokens_view(more@).take(k as int).push(token_view(more@[k as int])));
                                    if table_well_formed(table) {
                                        assert(well_formed_token(token_view(more@[k as int])));
                                        assert forall|j: int| 0 <= j < expanded@.len() implies well_formed_token(#[trigger] token_view(expanded@[j])) by {
                                            if j < before_tokens.len() {
                                                assert(expanded@[j] == before_tokens[j]);
                                            }
                                        }
                                    }
                                }
                                k += 1;
                                assert(tokens_view(expanded@) =~= done + tokens_view(more@).take(k as int));
                            }
                            assert(tokens_view(more@).take(k as int) =~= tokens_view(more@));
                        },
                        Err(error) => {
                            proof {
                                let token_view_here = token_view(*token);
                                assert(resolve_macro(table, scope, token_view_here) == Some(nested@));
                                assert(expand_call(table, scope, nested@, token.location, depth + 1) is Err);
                                assert(expand_body(table, scope, body_view.take(position + 1), depth as int)
                                    == expand_call(table, scope, nested@, token.location, depth + 1));
                                lemma_expand_body_error(table, scope, body_view, position as int + 1, depth as int);
                            }
                            return Err(error);
                        },
                    }
                },
                None => {
                    let ghost before_tokens = expanded@;
                    expanded.push(token.clone());
                    assert(tokens_view(expanded@) =~= done.push(token_view(*token)));
                    proof {
                        if table_well_formed(table) {
                            assert(token_view(*token) == body_view[position as int]);
                            assert(well_formed_token(table[index as int].1[position as int]));
                            assert forall|j: int| 0 <= j < expanded@.len() implies well_formed_token(#[trigger] token_view(expanded@[j])) by {
                                if j < before_tokens.len() {
                                    assert(expanded@[j] == before_tokens[j]);
                                }
                            }
                        }
                    }
                },
            }
            position += 1;
        }
        assert(body_view.take(position as int) =~= body_view);
        Ok(expanded)
    }
}

/// The body of a macro definition from `tokens[start]` on: its end, its tokens, and whether it
/// was closed.
fn scan_macro_body(tokens: &[Token], start: usize) -> (result: (usize, Vec<Token>, bool))
    requires
        1 <= start <= tokens@.len(),
    ensures
        result.0 as int == scan_body(tokens_view(tokens@), start as int, 1).0,
        tokens_view(result.1@) == scan_body(tokens_view(tokens@), start as int, 1).1,
        result.2 == scan_body(tokens_view(tokens@), start as int, 1).2,
        all_well_formed(tokens@) ==> all_well_formed(result.1@),
{
    let ghost view = tokens_view(tokens@);
    let mut body: Vec<Token> = Vec::new();
    let mut index: usize = start;
    let mut depth: usize = 1;
    loop
        invariant_except_break
            1 <= depth <= index - start + 1,
            scan_body(view, start as int, 1) == ({
                let (end, rest, closed) = scan_body(view, index as int, depth as nat);
                (end, tokens_view(body@) + rest, closed)
            }),
        invariant
            1 <= start <= index <= tokens@.len(),
            view == tokens_view(tokens@),
            all_well_formed(tokens@) ==> all_well_formed(body@),
        ensures
            scan_body(view, start as int, 1) == (index as int, tokens_view(body@), depth == 0),
            all_well_formed(tokens@) ==> all_well_formed(body@),
        decreases tokens@.len() - index,
    {
        if index >= tokens.len() {
            proof {
                assert(tokens_view(body@) + Seq::<TokenView>::empty() =~= tokens_view(body@));
            }
            break;
        }
        let current = &tokens[index];
        index += 1;
        let ghost before = tokens_view(body@);
        assert(view[index - 1] == token_view(*current));
        if current.kind == TokenKind::BraceClose {
            depth -= 1;
            if depth == 0 {
                assert(before + Seq::<TokenView>::empty() =~= before);
                break;
            }
            body.push(current.clone());
        } else if is_opening_lambda_token(current) {
            depth += 1;
            body.push(current.clone());
        } else {
            body.push(current.clone());
        }
        proof {
            let (end, rest, closed) = scan_body(view, index as int, depth as nat);
            assert(tokens_view(body@) =~= before.push(view[index - 1]));
            if all_well_formed(tokens@) {
                assert(well_formed_token(token_view(tokens@[index - 1])));
                assert forall|k: int| 0 <= k < body@.len() implies well_formed_token(#[trigger] token_view(body@[k])) by {
                    assert(token_view(body@[k]) == tokens_view(body@)[k]);
                    if k < body@.len() - 1 {
                        assert(tokens_view(body@)[k] == before[k]);
                    }
                }
            }
            assert(tokens_view(body@) + rest =~= before + (seq![view[index - 1]] + rest));
        }
    }
    (index, body, depth == 0)
}

/// The invariant of include expansion over `tokens`: from `files_before`, reading `consumed`
/// and then anything, gives the tokens `done` followed by the expansion from `i` on.
pub open spec fn includes_so_far(
    tokens: Seq<TokenView>,
    files_before: Seq<FileView>,
    levels: nat,
    consumed: Seq<Reply>,
    done: Seq<TokenView>,
    i: int,
    files_now: Seq<FileView>,
) -> bool {
    forall|rest: Seq<Reply>| #[trigger] includes_from(tokens, 0, files_before, consumed + rest, levels)
        == after_done(done, consumed.len(), includes_from(tokens, i, files_now, rest, levels))
}

/// The expansion from `i` on reads exactly `more` and fails: so does the whole.
proof fn lemma_includes_fail(
    tokens: Seq<TokenView>,
    files_before: Seq<FileView>,
    levels: nat,
    consumed: Seq<Reply>,
    done: Seq<TokenView>,
    i: int,
    files_now: Seq<FileView>,
    more: Seq<Reply>,
    failure: PreprocessorFailure,
    files_end: Seq<FileView>,
)
    requires
        includes_so_far(tokens, files_before, levels, consumed, done, i, files_now),
        forall|rest: Seq<Reply>| #[trigger] includes_from(tokens, i, files_now, more + rest, levels)
            == Some((Err::<Seq<TokenView>, PreprocessorFailure>(failure), files_end, more.len())),
    ensures
        reads_exactly(tokens, files_before, levels, consumed + more, Err(failure), files_end),
{
    assert forall|rest: Seq<Reply>| #[trigger] includes_from(tokens, 0, files_before, (consumed + more) + rest, levels)
        == Some((Err::<Seq<TokenView>, PreprocessorFailure>(failure), files_end, (consumed + more).len())) by {
        assert((consumed + more) + rest =~= consumed + (more + rest));
        assert(includes_from(tokens, 0, files_before, consumed + (more + rest), levels)
            == after_done(done, consumed.len(), includes_from(tokens, i, files_now, more + rest, levels)));
        assert(includes_from(tokens, i, files_now, more + rest, levels)
            == Some((Err::<Seq<TokenView>, PreprocessorFailure>(failure), files_end, more.len())));
    }
}

/// The token at `i` reads exactly `more` and gives `part`: the invariant moves past it.
proof fn lemma_includes_advance(
    tokens: Seq<TokenView>,
    files_before: Seq<FileView>,
    levels: nat,
    consumed: Seq<Reply>,
    done: Seq<TokenView>,
    i: int,
    files_now: Seq<FileView>,
    more: Seq<Reply>,
    part: Seq<TokenView>,
    files_next: Seq<FileView>,
)
    requires
        includes_so_far(tokens, files_before, levels, consumed, done, i, files_now),
        forall|rest: Seq<Reply>| #[trigger] includes_from(tokens, i, files_now, more + rest, levels)
            == after_done(part, more.len(), includes_from(tokens, i + 1, files_next, rest, levels)),
    ensures
        includes_so_far(tokens, files_before, levels, consumed + more, done + part, i + 1, files_next),
{
    assert forall|rest: Seq<Reply>| #[trigger] includes_from(tokens, 0, files_before, (consumed + more) + rest, levels)
        == after_done(done + part, (consumed + more).len(), includes_from(tokens, i + 1, files_next, rest, levels)) by {
        assert((consumed + more) + rest =~= consumed + (more + rest));
        assert(includes_from(tokens, 0, files_before, consumed + (more + rest), levels)
            == after_done(done, consumed.len(), includes_from(tokens, i, files_now, more + rest, levels)));
        lemma_after_done_compose(done, consumed.len(), part, more.len(), includes_from(tokens, i + 1, files_next, rest, levels));
    }
}

/// A token that is no include passes through, reading nothing.
proof fn lemma_include_plain(tokens: Seq<TokenView>, i: int, files: Seq<FileView>, levels: nat)
    requires
        0 <= i < tokens.len(),
        tokens[i].0 !is Include,
    ensures
        forall|rest: Seq<Reply>| #[trigger] includes_from(tokens, i, files, Seq::<Reply>::empty() + rest, levels)
            == after_done(seq![tokens[i]], Seq::<Reply>::empty().len(), includes_from(tokens, i + 1, files, rest, levels)),
{
    assert forall|rest: Seq<Reply>| #[trigger] includes_from(tokens, i, files, Seq::<Reply>::empty() + rest, levels)
        == after_done(seq![tokens[i]], Seq::<Reply>::empty().len(), includes_from(tokens, i + 1, files, rest, levels)) by {
        assert(Seq::<Reply>::empty() + rest =~= rest);
    }
}

/// An include with no levels left fails, reading nothing.
proof fn lemma_include_too_deep(tokens: Seq<TokenView>, i: int, files: Seq<FileView>)
    requires
        0 <= i < tokens.len(),
        tokens[i].0 is Include,
    ensures
        forall|rest: Seq<Reply>| #[trigger] includes_from(tokens, i, files, Seq::<Reply>::empty() + rest, 0)
            == Some((Err::<Seq<TokenView>, PreprocessorFailure>((PreprocessorFault::RecursionLimitExceeded, tokens[i].2)), files, Seq::<Reply>::empty().len())),
{
}

/// An include whose read fails gives that failure, reading one reply.
proof fn lemma_include_unreadable(tokens: Seq<TokenView>, i: int, files: Seq<FileView>, levels: nat, message: Seq<char>)
    requires
        0 <= i < tokens.len(),
        tokens[i].0 is Include,
        levels > 0,
    ensures
        forall|rest: Seq<Reply>| #[trigger] includes_from(tokens, i, files, seq![(tokens[i].1.skip(1), Err::<Seq<char>, Seq<char>>(message))] + rest, levels)
            == Some((Err::<Seq<TokenView>, PreprocessorFailure>((PreprocessorFault::FailedToReadFile(tokens[i].1.skip(1), message), tokens[i].2)),
                files, seq![(tokens[i].1.skip(1), Err::<Seq<char>, Seq<char>>(message))].len())),
{
    assert forall|rest: Seq<Reply>| #[trigger] includes_from(tokens, i, files, seq![(tokens[i].1.skip(1), Err::<Seq<char>, Seq<char>>(message))] + rest, levels)
        == Some((Err::<Seq<TokenView>, PreprocessorFailure>((PreprocessorFault::FailedToReadFile(tokens[i].1.skip(1), message), tokens[i].2)),
            files, seq![(tokens[i].1.skip(1), Err::<Seq<char>, Seq<char>>(message))].len())) by {
        assert((seq![(tokens[i].1.skip(1), Err::<Seq<char>, Seq<char>>(message))] + rest)[0] == (tokens[i].1.skip(1), Err::<Seq<char>, Seq<char>>(message)));
    }
}

/// An include whose file was read: its expansion, reading the text and then what the nested
/// expansion reads.
proof fn lemma_include_read(
    tokens: Seq<TokenView>,
    i: int,
    files: Seq<FileView>,
    levels: nat,
    text: Seq<char>,
    used: Seq<Reply>,
    nested: Result<Seq<TokenView>, PreprocessorFailure>,
    files_end: Seq<FileView>,
)
    requires
        0 <= i < tokens.len(),
        tokens[i].0 is Include,
        levels > 0,
        reads_exactly(
            source_tokens(id_for(files, tokens[i].1.skip(1)), text),
            registered(files, tokens[i].1.skip(1), text),
            (levels - 1) as nat,
            used,
            nested,
            files_end,
        ),
    ensures
        nested matches Err(failure) ==> forall|rest: Seq<Reply>|
            #[trigger] includes_from(tokens, i, files, seq![(tokens[i].1.skip(1), Ok::<Seq<char>, Seq<char>>(text))] + used + rest, levels)
                == Some((Err::<Seq<TokenView>, PreprocessorFailure>(failure), files_end, (seq![(tokens[i].1.skip(1), Ok::<Seq<char>, Seq<char>>(text))] + used).len())),
        nested matches Ok(inner) ==> forall|rest: Seq<Reply>|
            #[trigger] includes_from(tokens, i, files, seq![(tokens[i].1.skip(1), Ok::<Seq<char>, Seq<char>>(text))] + used + rest, levels)
                == after_done(inner, (seq![(tokens[i].1.skip(1), Ok::<Seq<char>, Seq<char>>(text))] + used).len(), includes_from(tokens, i + 1, files_end, rest, levels)),
{
    let path = tokens[i].1.skip(1);
    let included = source_tokens(id_for(files, path), text);
    let first = seq![(tokens[i].1.skip(1), Ok::<Seq<char>, Seq<char>>(text))];
    assert forall|rest: Seq<Reply>| {
        &&& nested matches Err(failure) ==> #[trigger] includes_from(tokens, i, files, first + used + rest, levels)
            == Some((Err::<Seq<TokenView>, PreprocessorFailure>(failure), files_end, (first + used).len()))
        &&& nested matches Ok(inner) ==> includes_from(tokens, i, files, first + used + rest, levels)
            == after_done(inner, (first + used).len(), includes_from(tokens, i + 1, files_end, rest, levels))
    } by {
        let replies = first + used + rest;
        assert(replies[0] == (path, Ok::<Seq<char>, Seq<char>>(text)));
        assert(replies.skip(1) =~= used + rest);
        assert(replies.skip(used.len() + 1 as int) =~= rest);
        assert(includes_from(included, 0, registered(files, path, text), used + rest, (levels - 1) as nat)
            == Some((nested, files_end, used.len())));
    }
}

/// Replies read one after the other were all read.
proof fn lemma_read_by_join<L: FileLoader>(before: Seq<Reply>, after: Seq<Reply>)
    requires
        read_by::<L>(before),
        read_by::<L>(after),
    ensures
        read_by::<L>(before + after),
{
    assert forall|k: int| 0 <= k < (before + after).len() implies #[trigger] read_call::<L>((before + after)[k]) by {
        if k < before.len() {
            assert(read_call::<L>(before[k]));
        } else {
            assert(read_call::<L>(after[k - before.len()]));
        }
    }
}

/// `after_done` with nothing done is the outcome itself.
proof fn lemma_after_done_nothing(outcome: Option<IncludeOutcome>)
    ensures
        after_done(Seq::empty(), 0, outcome) == outcome,
{
    match outcome {
        Some((Ok(rest), files, more)) => { assert(Seq::<TokenView>::empty() + rest =~= rest); },
        _ => {},
    }
}

/// Two `after_done` in turn are one, with both parts in front.
proof fn lemma_after_done_compose(a: Seq<TokenView>, n: nat, b: Seq<TokenView>, m: nat, outcome: Option<IncludeOutcome>)
    ensures
        after_done(a, n, after_done(b, m, outcome)) == after_done(a + b, n + m, outcome),
{
    match outcome {
        Some((Ok(rest), files, more)) => { assert(a + (b + rest) =~= (a + b) + rest); },
        _ => {},
    }
}

/// What the tokenizer's registration of `path` does, seen on the files' plain values.
pub proof fn lemma_registration_view(before: Seq<super::source_map::SourceFile>, after: Seq<super::source_map::SourceFile>, path: Seq<char>, text: Seq<char>)
    requires
        super::source_map::files_well_formed(before),
        match super::source_map::file_with_path(before, path) {
            Some(i) => after == before,
            None => {
                &&& after.len() == before.len() + 1
                &&& after.drop_last() == before
                &&& after.last().path@ == path
                &&& after.last().source@ == text
            },
        },
    ensures
        files_view(after) == registered(files_view(before), path, text),
        super::tokenizer::registered_id(before, path) == id_for(files_view(before), path),
{
    super::source_map::lemma_files_view(before, path);
    match super::source_map::file_with_path(before, path) {
        Some(i) => {},
        None => {
            assert forall|j: int| 0 <= j < after.len() implies #[trigger] files_view(after)[j] == files_view(before).push((path, text))[j] by {
                if j < before.len() {
                    assert(after[j] == after.drop_last()[j]);
                }
            }
            assert(files_view(after) =~= files_view(before).push((path, text)));
        },
    }
}

proof fn lemma_push_well_formed(before: Seq<Token>, after: Seq<Token>, source: Seq<Token>, k: int)
    requires
        0 <= k < source.len(),
        after == before.push(source[k]),
    ensures
        all_well_formed(before) && all_well_formed(source) ==> all_well_formed(after),
{
    if all_well_formed(before) && all_well_formed(source) {
        assert(well_formed_token(token_view(source[k])));
        assert forall|j: int| 0 <= j < after.len() implies well_formed_token(#[trigger] token_view(after[j])) by {
            if j < before.len() {
                assert(after[j] == before[j]);
            }
        }
    }
}

/// A bare word (an identifier, or a word that reads as a number or an opcode) whose whole text
/// is the name of a defined macro, and that does not start with `/`, calls that macro.
pub proof fn lemma_word_calls_its_macro(macros: MacroTable, scope: Seq<char>, token: TokenView)
    requires
        token.0 is Identifier || token.0 is Number || token.0 is OpCode || token.0 is Unknown,
        macro_body(macros, token.1) is Some,
        token.1.len() == 0 || token.1[0] != '/',
    ensures
        resolve_macro(macros, scope, token) == Some(token.1),
{
}

/// No macro call survives the expansion of a call: every token it gives is no call of a macro
/// defined in `macros` (a body token that calls one is replaced by that macro's own expansion),
/// and a body without macro calls expands to itself.
pub proof fn lemma_expand_call_leaves_no_calls(macros: MacroTable, scope: Seq<char>, name: Seq<char>, location: Location, depth: int)
    ensures
        expand_call(macros, scope, name, location, depth) matches Ok(out) ==> forall|i: int|
            0 <= i < out.len() ==> resolve_macro(macros, scope, #[trigger] out[i]) is None,
    decreases 33 - depth, 1int, 0int,
{
    if 0 <= depth <= MAX_MACRO_RECURSION_DEPTH {
        if let Some(body) = macro_body(macros, name) {
            lemma_expand_body_leaves_no_calls(macros, scope, body, depth);
        }
    }
}

/// The expansion of a macro body calls no macro, and a body that calls none expands to itself.
pub proof fn lemma_expand_body_leaves_no_calls(macros: MacroTable, scope: Seq<char>, body: Seq<TokenView>, depth: int)
    ensures
        expand_body(macros, scope, body, depth) matches Ok(out) ==> forall|i: int|
            0 <= i < out.len() ==> resolve_macro(macros, scope, #[trigger] out[i]) is None,
        0 <= depth <= MAX_MACRO_RECURSION_DEPTH && (forall|i: int| 0 <= i < body.len() ==> resolve_macro(macros, scope, #[trigger] body[i]) is None)
            ==> expand_body(macros, scope, body, depth) == Ok::<Seq<TokenView>, PreprocessorFailure>(body),
    decreases 33 - depth, 0int, body.len(),
{
    if !(depth > MAX_MACRO_RECURSION_DEPTH || depth < 0 || body.len() == 0) {
        let before = body.drop_last();
        lemma_expand_body_leaves_no_calls(macros, scope, before, depth);
        assert forall|i: int| 0 <= i < before.len() implies before[i] == body[i] by {}
        match expand_body(macros, scope, before, depth) {
            Err(_) => {},
            Ok(done) => {
                let token = body.last();
                match resolve_macro(macros, scope, token) {
                    Some(nested) => {
                        lemma_expand_call_leaves_no_calls(macros, scope, nested, token.2, depth + 1);
                        match expand_call(macros, scope, nested, token.2, depth + 1) {
                            Ok(more) => {
                                let out = done + more;
                                assert forall|i: int| 0 <= i < out.len() implies resolve_macro(macros, scope, #[trigger] out[i]) is None by {
                                    if i < done.len() {
                                        assert(out[i] == done[i]);
                                    } else {
                                        assert(out[i] == more[i - done.len()]);
                                    }
                                }
                            },
                            Err(_) => {},
                        }
                    },
                    None => {
                        let out = done.push(token);
                        assert forall|i: int| 0 <= i < out.len() implies resolve_macro(macros, scope, #[trigger] out[i]) is None by {
                            if i < done.len() {
                                assert(out[i] == done[i]);
                            }
                        }
                        assert(before.push(token) =~= body);
                    },
                }
            },
        }
    } else if body.len() == 0 {
        assert(body =~= Seq::<TokenView>::empty());
    }
}

proof fn lemma_expand_body_error(macros: MacroTable, scope: Seq<char>, body: Seq<TokenView>, k: int, depth: int)
    requires
        0 <= k <= body.len(),
        0 <= depth <= MAX_MACRO_RECURSION_DEPTH,
        expand_body(macros, scope, body.take(k), depth) is Err,
    ensures
        expand_body(macros, scope, body, depth) == expand_body(macros, scope, body.take(k), depth),
    decreases body.len() - k,
{
    if k < body.len() {
        assert(body.take(k + 1).drop_last() =~= body.take(k));
        lemma_expand_body_error(macros, scope, body, k + 1, depth);
    } else {
        assert(body.take(k) =~= body);
    }
}

proof fn lemma_lambda_error(tokens: Seq<TokenView>, k: int, counter: usize)
    requires
        0 <= k <= tokens.len(),
        lambda_state(tokens.take(k), counter) is Err,
    ensures
        lambda_state(tokens, counter) == lambda_state(tokens.take(k), counter),
    decreases tokens.len() - k,
{
    if k < tokens.len() {
        assert(tokens.take(k + 1).drop_last() =~= tokens.take(k));
        lemma_lambda_error(tokens, k + 1, counter);
    } else {
        assert(tokens.take(k) =~= tokens);
    }
}

} // verus!
