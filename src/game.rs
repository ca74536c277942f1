use vstd::prelude::*;

use crate::token::{LexToken, PgnToken};
use crate::variation_map::{map_get, map_insert, map_len, map_new, variations_of, VariationTable};

verus! {

/// One line of play: an append-only sequence of entries.
#[derive(Debug, Clone, PartialEq, Eq)]
pub struct PgnVariation(pub Vec<PgnToken>);

impl View for PgnVariation {
    type V = Seq<PgnToken>;

    open spec fn view(&self) -> Seq<PgnToken> {
        self.0@
    }
}

impl Default for PgnVariation {
    fn default() -> (r: PgnVariation)
        ensures
            r@ == Seq::<PgnToken>::empty(),
    {
        PgnVariation(Vec::new())
    }
}

/// What a game is: its header tokens in order, and each variation id with the
/// entries of that variation.
pub ghost struct GameModel {
    pub headers: Seq<LexToken>,
    pub variations: Map<u16, Seq<PgnToken>>,
}

impl GameModel {
    /// A game that nothing has been recorded into: no headers, an empty mainline.
    pub open spec fn fresh() -> GameModel {
        GameModel { headers: Seq::empty(), variations: map![0u16 => Seq::<PgnToken>::empty()] }
    }
}

/// One game: header and result tokens, and the variations keyed by id, the
/// mainline under id 0.
#[derive(Debug, PartialEq, Eq)]
pub struct PgnGame {
    pub headers: Vec<LexToken>,
    pub variations: VariationTable,
}

impl View for PgnGame {
    type V = GameModel;

    open spec fn view(&self) -> GameModel {
        GameModel { headers: self.headers@, variations: variations_of(self.variations) }
    }
}

impl PgnGame {
    /// A game with no headers and an empty mainline.
    pub fn new() -> (r: PgnGame)
        ensures
            r@ == GameModel::fresh(),
    {
        let mut variations = map_new();
        map_insert(&mut variations, 0, PgnVariation::default());
        proof {
            assert(variations_of(variations) =~= map![0u16 => Seq::<PgnToken>::empty()]);
        }
        PgnGame { headers: Vec::new(), variations }
    }

    /// The header and result tokens, in input order.
    pub fn headers(&self) -> (r: &Vec<LexToken>)
        ensures
            r@ == self@.headers,
    {
        &self.headers
    }

    /// The variation with the given id, if the game has one.
    pub fn variation(&self, id: u16) -> (r: Option<&PgnVariation>)
        ensures
            r is Some <==> self@.variations.contains_key(id),
            r is Some ==> r->0@ == self@.variations[id],
    {
        map_get(&self.variations, id)
    }

    /// The number of variations, the mainline included.
    pub fn variation_count(&self) -> (r: usize)
        ensures
            r == self@.variations.dom().len(),
    {
        map_len(&self.variations)
    }
}

} // verus!
