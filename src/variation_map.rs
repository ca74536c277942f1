//! The variation table of a game is a `litemap::LiteMap` from id to variation.
//! Its contents are named by `variations_of`; the functions below are the
//! calls into the crate that the builder makes.
use litemap::LiteMap;
use vstd::prelude::*;

use crate::game::PgnVariation;
use crate::token::PgnToken;

verus! {

#[verifier::external_type_specification]
#[verifier::external_body]
#[verifier::reject_recursive_types(K)]
#[verifier::reject_recursive_types(V)]
#[verifier::reject_recursive_types(S)]
pub struct ExLiteMap<K: ?Sized, V: ?Sized, S>(LiteMap<K, V, S>);

/// The variation table of one game.
pub type VariationTable = LiteMap<u16, PgnVariation>;

/// What a variation table holds: each id with the entries of its variation.
pub uninterp spec fn variations_of(m: VariationTable) -> Map<u16, Seq<PgnToken>>;

/// Relies on `LiteMap::new_vec`: a map with no entries.
#[verifier::external_body]
pub(crate) fn map_new() -> (r: VariationTable)
    ensures
        variations_of(r) =~= Map::empty(),
{
    LiteMap::new_vec()
}

/// Relies on `LiteMap::insert`: the key now maps to the value, whether or not
/// it was present before; other keys are untouched.
#[verifier::external_body]
pub(crate) fn map_insert(m: &mut VariationTable, k: u16, v: PgnVariation)
    ensures
        variations_of(*final(m)) == variations_of(*old(m)).insert(k, v@),
{
    m.insert(k, v);
}

/// Relies on `LiteMap::get`: the value stored under the key, if any.
#[verifier::external_body]
pub(crate) fn map_get(m: &VariationTable, k: u16) -> (r: Option<&PgnVariation>)
    ensures
        r is Some <==> variations_of(*m).contains_key(k),
        r is Some ==> r->0@ == variations_of(*m)[k],
{
    m.get(&k)
}

/// Relies on `LiteMap::get_mut`: a handle on the value stored under a key that
/// is present; what is written through it is what the map then holds there.
#[verifier::external_body]
pub(crate) fn map_get_mut(m: &mut VariationTable, k: u16) -> (r: &mut PgnVariation)
    requires
        variations_of(*old(m)).contains_key(k),
    ensures
        r@ == variations_of(*old(m))[k],
        variations_of(*final(m)) == variations_of(*old(m)).insert(k, (*final(r))@),
{
    m.get_mut(&k).unwrap()
}

/// Relies on `LiteMap::len`: the number of keys.
#[verifier::external_body]
pub(crate) fn map_len(m: &VariationTable) -> (r: usize)
    ensures
        r == variations_of(*m).dom().len(),
{
    m.len()
}

} // verus!
