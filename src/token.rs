use vstd::prelude::*;

verus! {

/// One lexical unit of a game record, as a scanner hands it over.
/// The payloads are carried along and never interpreted here.
#[derive(Debug, Clone, PartialEq, Eq)]
pub enum LexToken {
    Move(Vec<u8>),
    NullMove(Vec<u8>),
    EscapeComment(Vec<u8>),
    NAG(Vec<u8>),
    MoveAnnotation(Vec<u8>),
    MoveNumber(u32, Vec<u8>),
    Result(Vec<u8>),
    Commentary(Vec<u8>),
    TagSymbol(Vec<u8>),
    TagString(Vec<u8>),
    StartVariation(Vec<u8>),
    EndVariation(Vec<u8>),
}

/// An entry of a variation: a move-level token, or the point where a child
/// variation branches off.
#[derive(Debug, Clone, PartialEq, Eq)]
pub enum PgnToken {
    Token(LexToken),
    VariationPointer(u16),
    Empty,
}

impl LexToken {
    /// Tokens that become entries of the active variation.
    pub open spec fn is_node(&self) -> bool {
        self is Move || self is Commentary || self is NAG || self is MoveAnnotation
            || self is MoveNumber
    }

    /// Tokens that go to the header list of the current game.
    pub open spec fn is_tag(&self) -> bool {
        self is TagSymbol || self is TagString
    }

    /// Tokens that are dropped without a trace.
    pub open spec fn is_ignored(&self) -> bool {
        self is NullMove || self is EscapeComment
    }
}

impl Default for PgnToken {
    fn default() -> (r: PgnToken)
        ensures
            r is Empty,
    {
        PgnToken::Empty
    }
}

} // verus!
