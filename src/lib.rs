//! Turns a flat stream of chess-game lexical tokens into games made of header
//! tokens and a flat, id-indexed collection of move variations.

pub mod ast;
mod game;
mod token;
pub mod variation_map;

pub use ast::pgn_tokens_to_ast;
pub use game::{GameModel, PgnGame, PgnVariation};
pub use token::{LexToken, PgnToken};
pub mod laws;
