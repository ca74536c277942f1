//! The builder: one pass over the token queue, with an explicit stack of the
//! variations that are open, in place of recursion.
use std::collections::VecDeque;
use vstd::prelude::*;

use crate::game::{GameModel, PgnGame, PgnVariation};
use crate::token::{LexToken, PgnToken};
use crate::variation_map::{map_get, map_get_mut, map_insert, map_len, variations_of};

verus! {

/// Where the builder stands between two tokens.
pub ghost struct BuildState {
    /// Games closed by a result token.
    pub done: Seq<GameModel>,
    /// The game that tokens go to now.
    pub current: GameModel,
    /// Ids of the variations entered and not yet left, innermost last.
    pub open: Seq<u16>,
    /// One more than the number of variations opened in the current game,
    /// modulo 2^16.
    pub counter: u16,
}

/// The variation that entries go to: the innermost open one, or the mainline.
pub open spec fn active_id(open: Seq<u16>) -> u16 {
    if open.len() == 0 {
        0
    } else {
        open.last()
    }
}

/// The id of a variation opened from `parent` when `counter` variations have
/// been opened before it in the game: `counter * (parent + 1)` in 16-bit
/// arithmetic.
pub open spec fn new_variation_id(counter: u16, parent: u16) -> u16 {
    ((counter as nat * (parent as nat + 1)) % 65536) as u16
}

/// The counter after one more variation was opened.
pub open spec fn next_counter(counter: u16) -> u16 {
    ((counter as nat + 1) % 65536) as u16
}

/// `g` with `e` appended to the variation `id`.
pub open spec fn append_entry(g: GameModel, id: u16, e: PgnToken) -> GameModel {
    GameModel { variations: g.variations.insert(id, g.variations[id].push(e)), ..g }
}

/// The state before any token.
pub open spec fn initial_state() -> BuildState {
    BuildState { done: Seq::empty(), current: GameModel::fresh(), open: Seq::empty(), counter: 1 }
}

/// What one token does to the state.
pub open spec fn step(s: BuildState, t: LexToken) -> BuildState {
    let cur = active_id(s.open);
    if t.is_node() {
        BuildState { current: append_entry(s.current, cur, PgnToken::Token(t)), ..s }
    } else if t.is_tag() {
        BuildState { current: GameModel { headers: s.current.headers.push(t), ..s.current }, ..s }
    } else if t is Result {
        BuildState {
            done: s.done.push(GameModel { headers: s.current.headers.push(t), ..s.current }),
            current: GameModel::fresh(),
            open: Seq::empty(),
            counter: 1,
        }
    } else if t is StartVariation {
        let id = new_variation_id(s.counter, cur);
        let g = append_entry(s.current, cur, PgnToken::VariationPointer(id));
        BuildState {
            current: GameModel { variations: g.variations.insert(id, Seq::empty()), ..g },
            open: s.open.push(id),
            counter: next_counter(s.counter),
            ..s
        }
    } else if t is EndVariation && s.open.len() > 0 {
        BuildState { open: s.open.drop_last(), ..s }
    } else {
        s
    }
}

/// The state after the tokens, taken in order.
pub open spec fn run(tokens: Seq<LexToken>) -> BuildState
    decreases tokens.len(),
{
    if tokens.len() == 0 {
        initial_state()
    } else {
        step(run(tokens.drop_last()), tokens.last())
    }
}

/// The games of a final state: the closed ones, then the current one unless
/// nothing was recorded into it.
pub open spec fn games_of(s: BuildState) -> Seq<GameModel> {
    if s.current == GameModel::fresh() {
        s.done
    } else {
        s.done.push(s.current)
    }
}

/// The games that a token stream describes.
pub open spec fn build(tokens: Seq<LexToken>) -> Seq<GameModel> {
    games_of(run(tokens))
}

/// The current game holds the mainline and every open variation.
pub open spec fn state_wf(s: BuildState) -> bool {
    &&& s.current.variations.dom().finite()
    &&& s.current.variations.contains_key(0)
    &&& forall|i: int| 0 <= i < s.open.len() ==> s.current.variations.contains_key(#[trigger] s.open[i])
}

/// Every state the builder reaches is well formed.
pub proof fn lemma_run_wf(tokens: Seq<LexToken>)
    ensures
        state_wf(run(tokens)),
    decreases tokens.len(),
{
    if tokens.len() > 0 {
        lemma_run_wf(tokens.drop_last());
        let s = run(tokens.drop_last());
        let s2 = run(tokens);
        assert(s2 == step(s, tokens.last()));
        if tokens.last() is EndVariation && s.open.len() > 0 {
            assert forall|i: int| 0 <= i < s2.open.len() implies s2.current.variations.contains_key(
                #[trigger] s2.open[i],
            ) by {
                assert(s2.open[i] == s.open[i]);
            }
        }
        if tokens.last() is StartVariation {
            assert forall|i: int| 0 <= i < s2.open.len() implies s2.current.variations.contains_key(
                #[trigger] s2.open[i],
            ) by {
                if i < s.open.len() {
                    assert(s2.open[i] == s.open[i]);
                }
            }
        }
    } else {
        assert(GameModel::fresh().variations.contains_key(0));
    }
}

/// Converts a token queue into games, consuming the whole queue.
///
/// Tokens are taken one at a time. Move-level tokens are appended to the
/// active variation, tags to the current game's headers; null moves and escape
/// comments are dropped. A result token closes the game, and the next game
/// starts at its mainline with a fresh counter. A start of variation appends a
/// pointer to a new id, creates that variation empty and makes it active; an
/// end of variation makes its parent active again, and does nothing at the
/// mainline. A last game that nothing was recorded into is left out.
pub fn pgn_tokens_to_ast(tokens: &mut VecDeque<LexToken>) -> (r: Vec<PgnGame>)
    ensures
        final(tokens)@.len() == 0,
        r@.len() == build(old(tokens)@).len(),
        forall|i: int| 0 <= i < r@.len() ==> (#[trigger] r@[i])@ == build(old(tokens)@)[i],
{
    let ghost input = tokens@;
    let mut games: Vec<PgnGame> = Vec::new();
    let mut current = PgnGame::new();
    let mut open: Vec<u16> = Vec::new();
    let mut counter: u16 = 1;
    proof {
        assert(input.take(0) =~= Seq::<LexToken>::empty());
    }
    while tokens.len() != 0
        invariant
            0 <= tokens@.len() <= input.len(),
            tokens@ == input.skip(input.len() - tokens@.len()),
            ({
                let s = run(input.take(input.len() - tokens@.len()));
                &&& games@.len() == s.done.len()
                &&& forall|i: int| 0 <= i < games@.len() ==> (#[trigger] games@[i])@ == s.done[i]
                &&& current@ == s.current
                &&& open@ == s.open
                &&& counter == s.counter
                &&& state_wf(s)
            }),
        decreases tokens@.len(),
    {
        let ghost k = input.len() - tokens@.len();
        let ghost s = run(input.take(k));
        let t = tokens.pop_front().unwrap();
        proof {
            assert(t == input[k]);
            assert(input.take(k + 1).drop_last() =~= input.take(k));
            assert(input.take(k + 1).last() == t);
            assert(tokens@ =~= input.skip(k + 1));
            lemma_run_wf(input.take(k + 1));
        }
        let ghost s2 = run(input.take(k + 1));
        assert(s2 == step(s, t));
        let cur: u16 = if open.len() == 0 {
            0
        } else {
            open[open.len() - 1]
        };
        assert(cur == active_id(s.open));
        match t {
            LexToken::Move(_)
            | LexToken::Commentary(_)
            | LexToken::NAG(_)
            | LexToken::MoveAnnotation(_)
            | LexToken::MoveNumber(_, _) => {
                let v = map_get_mut(&mut current.variations, cur);
                v.0.push(PgnToken::Token(t));
                proof {
                    assert(current@.variations =~= s2.current.variations);
                }
            },
            LexToken::TagSymbol(_) | LexToken::TagString(_) => {
                current.headers.push(t);
            },
            LexToken::NullMove(_) | LexToken::EscapeComment(_) => {},
            LexToken::Result(_) => {
                current.headers.push(t);
                games.push(current);
                current = PgnGame::new();
                open = Vec::new();
                counter = 1;
                proof {
                    assert(open@ =~= s2.open);
                }
            },
            LexToken::StartVariation(_) => {
                proof {
                    assert((counter as int) * (cur as int + 1) <= 65535 * 65536) by (nonlinear_arith)
                        requires
                            counter <= 65535,
                            cur <= 65535,
                    ;
                }
                let wide: u32 = (counter as u32) * ((cur as u32) + 1);
                let id: u16 = (wide % 65536) as u16;
                counter = ((counter as u32 + 1) % 65536) as u16;
                let v = map_get_mut(&mut current.variations, cur);
                v.0.push(PgnToken::VariationPointer(id));
                map_insert(&mut current.variations, id, PgnVariation::default());
                open.push(id);
                proof {
                    assert(current@.variations =~= s2.current.variations);
                }
            },
            LexToken::EndVariation(_) => {
                if open.len() > 0 {
                    open.pop();
                    proof {
                        assert(open@ =~= s2.open);
                    }
                }
            },
        }
    }
    proof {
        assert(input.take(input.len() as int) =~= input);
    }
    if !is_fresh(&current) {
        games.push(current);
    }
    games
}

/// Whether nothing has been recorded into the game.
fn is_fresh(g: &PgnGame) -> (r: bool)
    requires
        g@.variations.dom().finite(),
        g@.variations.contains_key(0),
    ensures
        r == (g@ == GameModel::fresh()),
{
    if g.headers.len() != 0 {
        return false;
    }
    if map_len(&g.variations) != 1 {
        proof {
            if g@ == GameModel::fresh() {
                assert(g@.variations.dom() =~= set![0u16]);
            }
        }
        return false;
    }
    match map_get(&g.variations, 0) {
        Some(v) => {
            let empty = v.0.len() == 0;
            proof {
                let d = g@.variations.dom();
                assert(d.remove(0u16).len() == 0);
                assert(d.remove(0u16) =~= Set::<u16>::empty());
                assert(d =~= set![0u16]);
                if empty {
                    assert(g@.variations[0u16] =~= Seq::<PgnToken>::empty());
                    assert(g@.variations =~= GameModel::fresh().variations);
                    assert(g@.headers =~= Seq::<LexToken>::empty());
                }
            }
            empty
        },
        None => false,
    }
}

} // verus!
