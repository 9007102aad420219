use vstd::prelude::*;
use super::location::Location;

verus! {

/// The kinds of token that the tokenizer recognises, mostly by their leading rune.
#[derive(Debug, Copy, Clone, PartialEq, Eq, Structural)]
pub enum TokenKind {
    Include,
    BraceOpen,
    BraceClose,
    BracketOpen,
    BracketClose,
    MacroDefinition,
    Number,
    HexLiteral,
    OpCode,
    RawString,
    Identifier,
    PadAbsolute,
    PadRelative,
    Label,
    Sublabel,
    JumpImmediate,
    JumpConditional,
    LiteralAbsolute,
    LiteralZeroPage,
    LiteralRelative,
    RawAbsolute,
    RawZeroPage,
    RawRelative,
    Unknown,
}

/// A token: its kind, its text (rune included) and where it starts.
#[derive(Debug, PartialEq, Eq)]
pub struct Token {
    pub kind: TokenKind,
    pub value: String,
    pub location: Location,
}

impl Clone for Token {
    fn clone(&self) -> (token: Self)
        ensures
            token == *self,
    {
        Token { kind: self.kind, value: self.value.clone(), location: self.location }
    }
}

/// The view of a token: its kind, its text and its location.
pub type TokenView = (TokenKind, Seq<char>, Location);

pub open spec fn token_view(token: Token) -> TokenView {
    (token.kind, token.value@, token.location)
}

pub open spec fn tokens_view(tokens: Seq<Token>) -> Seq<TokenView> {
    tokens.map_values(|token: Token| token_view(token))
}

/// A token as the tokenizer makes them: with text, and for kinds introduced by a rune, with that
/// one-byte rune in front.
pub open spec fn well_formed_token(token: TokenView) -> bool {
    &&& token.1.len() > 0
    &&& !(token.0 is Number || token.0 is OpCode || token.0 is Identifier || token.0 is Unknown) ==> (token.1[0] as u32) < 0x80
}

/// Every token is well formed.
pub open spec fn all_well_formed(tokens: Seq<Token>) -> bool {
    forall|k: int| 0 <= k < tokens.len() ==> well_formed_token(#[trigger] token_view(tokens[k]))
}

} // verus!
