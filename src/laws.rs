//! Facts about whole token streams, proved over the builder's model.
use vstd::prelude::*;

use crate::ast::{active_id, build, lemma_run_wf, new_variation_id, next_counter, run};
use crate::game::GameModel;
use crate::token::{LexToken, PgnToken};

verus! {

/// The number of result tokens.
pub open spec fn count_results(tokens: Seq<LexToken>) -> nat
    decreases tokens.len(),
{
    if tokens.len() == 0 {
        0
    } else {
        count_results(tokens.drop_last()) + if tokens.last() is Result { 1nat } else { 0nat }
    }
}

/// The tag and result tokens, in order.
pub open spec fn headers_in(tokens: Seq<LexToken>) -> Seq<LexToken>
    decreases tokens.len(),
{
    if tokens.len() == 0 {
        Seq::empty()
    } else if tokens.last().is_tag() || tokens.last() is Result {
        headers_in(tokens.drop_last()).push(tokens.last())
    } else {
        headers_in(tokens.drop_last())
    }
}

/// The move-level tokens as variation entries, in order.
pub open spec fn nodes_in(tokens: Seq<LexToken>) -> Seq<PgnToken>
    decreases tokens.len(),
{
    if tokens.len() == 0 {
        Seq::empty()
    } else if tokens.last().is_node() {
        nodes_in(tokens.drop_last()).push(PgnToken::Token(tokens.last()))
    } else {
        nodes_in(tokens.drop_last())
    }
}

/// The tag tokens after the last result token.
pub open spec fn trailing_headers(tokens: Seq<LexToken>) -> Seq<LexToken>
    decreases tokens.len(),
{
    if tokens.len() == 0 || tokens.last() is Result {
        Seq::empty()
    } else if tokens.last().is_tag() {
        trailing_headers(tokens.drop_last()).push(tokens.last())
    } else {
        trailing_headers(tokens.drop_last())
    }
}

/// The move-level tokens after the last result token, as entries.
pub open spec fn trailing_nodes(tokens: Seq<LexToken>) -> Seq<PgnToken>
    decreases tokens.len(),
{
    if tokens.len() == 0 || tokens.last() is Result {
        Seq::empty()
    } else if tokens.last().is_node() {
        trailing_nodes(tokens.drop_last()).push(PgnToken::Token(tokens.last()))
    } else {
        trailing_nodes(tokens.drop_last())
    }
}

/// The header lists of the games, one after another.
pub open spec fn concat_headers(games: Seq<GameModel>) -> Seq<LexToken>
    decreases games.len(),
{
    if games.len() == 0 {
        Seq::empty()
    } else {
        concat_headers(games.drop_last()) + games.last().headers
    }
}

/// The mainlines of the games, one after another.
pub open spec fn concat_mainlines(games: Seq<GameModel>) -> Seq<PgnToken>
    decreases games.len(),
{
    if games.len() == 0 {
        Seq::empty()
    } else {
        concat_mainlines(games.drop_last()) + games.last().variations[0]
    }
}

/// No token opens a variation.
pub open spec fn no_variation_starts(tokens: Seq<LexToken>) -> bool {
    forall|i: int| 0 <= i < tokens.len() ==> !(#[trigger] tokens[i] is StartVariation)
}

/// A game of a stream without variations: a mainline and nothing else, and
/// headers that end with its result.
pub open spec fn closed_flat_game(g: GameModel) -> bool {
    &&& g.variations.dom() == set![0u16]
    &&& g.headers.len() > 0
    &&& g.headers.last() is Result
}

proof fn lemma_flat_run(tokens: Seq<LexToken>)
    requires
        no_variation_starts(tokens),
    ensures
        ({
            let s = run(tokens);
            &&& s.open.len() == 0
            &&& s.done.len() == count_results(tokens)
            &&& forall|k: int| 0 <= k < s.done.len() ==> closed_flat_game(#[trigger] s.done[k])
            &&& s.current.variations == map![0u16 => trailing_nodes(tokens)]
            &&& s.current.headers == trailing_headers(tokens)
            &&& concat_headers(s.done) + s.current.headers == headers_in(tokens)
            &&& concat_mainlines(s.done) + trailing_nodes(tokens) == nodes_in(tokens)
        }),
    decreases tokens.len(),
{
    if tokens.len() == 0 {
        let s = run(tokens);
        assert(s.current.variations =~= map![0u16 => trailing_nodes(tokens)]);
        assert(concat_headers(s.done) + s.current.headers =~= headers_in(tokens));
        assert(concat_mainlines(s.done) + trailing_nodes(tokens) =~= nodes_in(tokens));
    } else {
        let prev = tokens.drop_last();
        let t = tokens.last();
        assert forall|i: int| 0 <= i < prev.len() implies !(#[trigger] prev[i] is StartVariation) by {
            assert(prev[i] == tokens[i]);
        }
        lemma_flat_run(prev);
        assert(!(tokens[tokens.len() - 1] is StartVariation));
        let s = run(prev);
        let s2 = run(tokens);
        assert(active_id(s.open) == 0);
        if t.is_node() {
            assert(s2.current.variations =~= map![0u16 => trailing_nodes(tokens)]);
            assert(concat_mainlines(s2.done) + trailing_nodes(tokens) =~= (concat_mainlines(s.done)
                + trailing_nodes(prev)).push(PgnToken::Token(t)));
        } else if t.is_tag() {
            assert(concat_headers(s2.done) + s2.current.headers =~= (concat_headers(s.done)
                + s.current.headers).push(t));
        } else if t is Result {
            let g = s2.done.last();
            assert(s2.done.drop_last() =~= s.done);
            assert(g.variations.dom() =~= set![0u16]);
            assert(closed_flat_game(g));
            assert forall|k: int| 0 <= k < s2.done.len() implies closed_flat_game(
                #[trigger] s2.done[k],
            ) by {
                if k < s.done.len() {
                    assert(s2.done[k] == s.done[k]);
                }
            }
            assert(s2.current.variations =~= map![0u16 => trailing_nodes(tokens)]);
            assert(concat_headers(s2.done) =~= (concat_headers(s.done) + s.current.headers).push(
                t,
            ));
            assert(concat_headers(s2.done) + s2.current.headers =~= concat_headers(s2.done));
            assert(concat_mainlines(s2.done) + trailing_nodes(tokens) =~= concat_mainlines(s.done)
                + trailing_nodes(prev));
        } else {
            assert(s2 == s);
        }
    }
}

/// A stream without variations gives one game per result token, each with a
/// mainline only and headers that end with its result; the headers of all the
/// games, in turn, are the tag and result tokens in input order, and their
/// mainlines are the move-level tokens in input order. This holds where no tag
/// or move-level token follows the last result (else that game is kept too).
pub proof fn law_flat_stream(tokens: Seq<LexToken>)
    requires
        no_variation_starts(tokens),
        trailing_headers(tokens).len() == 0,
        trailing_nodes(tokens).len() == 0,
    ensures
        build(tokens).len() == count_results(tokens),
        forall|k: int| 0 <= k < build(tokens).len() ==> closed_flat_game(#[trigger] build(tokens)[k]),
        concat_headers(build(tokens)) == headers_in(tokens),
        concat_mainlines(build(tokens)) == nodes_in(tokens),
{
    lemma_flat_run(tokens);
    let s = run(tokens);
    assert(trailing_nodes(tokens) =~= Seq::<PgnToken>::empty());
    assert(s.current.variations =~= GameModel::fresh().variations);
    assert(s.current.headers =~= Seq::<LexToken>::empty());
    assert(s.current == GameModel::fresh());
    assert(build(tokens) == s.done);
    assert(concat_headers(s.done) + s.current.headers =~= concat_headers(s.done));
    assert(concat_mainlines(s.done) + trailing_nodes(tokens) =~= concat_mainlines(s.done));
}

/// A start of variation directly followed by its end leaves, at the point
/// where it stands, a pointer to a new id in the active variation and an empty
/// variation under that id; the active variation and the games closed so far
/// are as before. (Where the new id equals the active one, the empty entry
/// replaces the active variation, so the pointer part is stated only where
/// they differ.)
pub proof fn law_empty_variation(prefix: Seq<LexToken>, start: LexToken, end: LexToken)
    requires
        start is StartVariation,
        end is EndVariation,
    ensures
        ({
            let s = run(prefix);
            let s2 = run(prefix.push(start).push(end));
            let parent = active_id(s.open);
            let id = new_variation_id(s.counter, parent);
            &&& s2.done == s.done
            &&& s2.open == s.open
            &&& s2.counter == next_counter(s.counter)
            &&& s2.current.headers == s.current.headers
            &&& s2.current.variations.contains_key(id)
            &&& s2.current.variations[id] == Seq::<PgnToken>::empty()
            &&& id != parent ==> s2.current.variations[parent] == s.current.variations[parent].push(
                PgnToken::VariationPointer(id),
            )
        }),
{
    let p1 = prefix.push(start);
    let p2 = p1.push(end);
    assert(p1.drop_last() =~= prefix);
    assert(p2.drop_last() =~= p1);
    let s = run(prefix);
    let s1 = run(p1);
    assert(s1.open.drop_last() =~= s.open);
}

/// Every token is a move-level token.
pub open spec fn all_nodes(seg: Seq<LexToken>) -> bool {
    forall|i: int| 0 <= i < seg.len() ==> (#[trigger] seg[i]).is_node()
}

/// Move-level tokens as variation entries.
pub open spec fn entries_of(seg: Seq<LexToken>) -> Seq<PgnToken> {
    seg.map_values(|t: LexToken| PgnToken::Token(t))
}

/// Move-level tokens are appended to the active variation, and change
/// nothing else.
proof fn lemma_node_run(prefix: Seq<LexToken>, seg: Seq<LexToken>)
    requires
        all_nodes(seg),
    ensures
        ({
            let s = run(prefix);
            let a = active_id(s.open);
            let s2 = run(prefix + seg);
            &&& s2.done == s.done
            &&& s2.open == s.open
            &&& s2.counter == s.counter
            &&& s2.current.headers == s.current.headers
            &&& s2.current.variations == s.current.variations.insert(
                a,
                s.current.variations[a] + entries_of(seg),
            )
        }),
    decreases seg.len(),
{
    let s = run(prefix);
    let a = active_id(s.open);
    lemma_run_wf(prefix);
    if seg.len() == 0 {
        assert(prefix + seg =~= prefix);
        assert(s.current.variations[a] + entries_of(seg) =~= s.current.variations[a]);
        assert(s.current.variations.insert(a, s.current.variations[a]) =~= s.current.variations);
    } else {
        let rest = seg.drop_last();
        assert forall|i: int| 0 <= i < rest.len() implies (#[trigger] rest[i]).is_node() by {
            assert(rest[i] == seg[i]);
        }
        lemma_node_run(prefix, rest);
        assert((prefix + seg).drop_last() =~= prefix + rest);
        assert((prefix + seg).last() == seg[seg.len() - 1]);
        assert(entries_of(seg) =~= entries_of(rest).push(PgnToken::Token(seg[seg.len() - 1])));
        let s1 = run(prefix + rest);
        assert(s1.current.variations[a] =~= s.current.variations[a] + entries_of(rest));
        assert(run(prefix + seg).current.variations =~= s.current.variations.insert(
            a,
            s.current.variations[a] + entries_of(seg),
        ));
    }
}

/// A variation opened inside a variation that was opened from the mainline:
/// `StartVariation x StartVariation y EndVariation z EndVariation`, with move-
/// level tokens `x`, `y`, `z`, at the mainline adds the outer id's pointer to
/// the mainline, gives the outer variation `x`, the inner id's pointer and
/// `z`, and the inner variation `y`; the mainline is active again. Stated
/// where the three ids differ.
pub proof fn law_nested_variation(
    prefix: Seq<LexToken>,
    start_a: LexToken,
    x: Seq<LexToken>,
    start_b: LexToken,
    y: Seq<LexToken>,
    end_b: LexToken,
    z: Seq<LexToken>,
    end_a: LexToken,
)
    requires
        run(prefix).open.len() == 0,
        start_a is StartVariation,
        start_b is StartVariation,
        end_b is EndVariation,
        end_a is EndVariation,
        all_nodes(x),
        all_nodes(y),
        all_nodes(z),
        new_variation_id(run(prefix).counter, 0) != 0,
        new_variation_id(next_counter(run(prefix).counter), new_variation_id(run(prefix).counter, 0))
            != 0,
        new_variation_id(next_counter(run(prefix).counter), new_variation_id(run(prefix).counter, 0))
            != new_variation_id(run(prefix).counter, 0),
    ensures
        ({
            let s = run(prefix);
            let s2 = run(
                ((((prefix.push(start_a) + x).push(start_b) + y).push(end_b) + z).push(end_a)),
            );
            let id_a = new_variation_id(s.counter, 0);
            let id_b = new_variation_id(next_counter(s.counter), id_a);
            &&& s2.done == s.done
            &&& s2.open.len() == 0
            &&& s2.current.headers == s.current.headers
            &&& s2.current.variations.dom() == s.current.variations.dom().insert(id_a).insert(id_b)
            &&& s2.current.variations[0] == s.current.variations[0].push(
                PgnToken::VariationPointer(id_a),
            )
            &&& s2.current.variations[id_a] == entries_of(x).push(PgnToken::VariationPointer(id_b))
                + entries_of(z)
            &&& s2.current.variations[id_b] == entries_of(y)
        }),
{
    let s = run(prefix);
    lemma_run_wf(prefix);
    let id_a = new_variation_id(s.counter, 0);
    let id_b = new_variation_id(next_counter(s.counter), id_a);
    let p1 = prefix.push(start_a);
    let p2 = p1 + x;
    let p3 = p2.push(start_b);
    let p4 = p3 + y;
    let p5 = p4.push(end_b);
    let p6 = p5 + z;
    let p7 = p6.push(end_a);
    assert(p1.drop_last() =~= prefix);
    assert(p3.drop_last() =~= p2);
    assert(p5.drop_last() =~= p4);
    assert(p7.drop_last() =~= p6);
    let s1 = run(p1);
    assert(s1.open =~= seq![id_a]);
    lemma_node_run(p1, x);
    let s2 = run(p2);
    let s3 = run(p3);
    assert(s3.open =~= seq![id_a, id_b]);
    lemma_node_run(p3, y);
    let s4 = run(p4);
    let s5 = run(p5);
    assert(s5.open =~= seq![id_a]);
    lemma_node_run(p5, z);
    let s6 = run(p6);
    let s7 = run(p7);
    assert(s7.open.len() == 0);
    assert(entries_of(y) =~= Seq::<PgnToken>::empty() + entries_of(y));
    assert(s7.current.variations.dom() =~= s.current.variations.dom().insert(id_a).insert(id_b));
    assert(s7.current.variations[0] =~= s.current.variations[0].push(
        PgnToken::VariationPointer(id_a),
    ));
    assert(s7.current.variations[id_a] =~= entries_of(x).push(PgnToken::VariationPointer(id_b))
        + entries_of(z));
    assert(s7.current.variations[id_b] =~= entries_of(y));
}

/// The ids of the variations opened since the last result token, in order.
pub open spec fn opened_ids(tokens: Seq<LexToken>) -> Seq<u16>
    decreases tokens.len(),
{
    if tokens.len() == 0 || tokens.last() is Result {
        Seq::empty()
    } else if tokens.last() is StartVariation {
        let s = run(tokens.drop_last());
        opened_ids(tokens.drop_last()).push(new_variation_id(s.counter, active_id(s.open)))
    } else {
        opened_ids(tokens.drop_last())
    }
}

/// Every start of variation comes while the mainline is active.
pub open spec fn starts_at_mainline(tokens: Seq<LexToken>) -> bool {
    forall|i: int|
        0 <= i < tokens.len() && (#[trigger] tokens[i]) is StartVariation ==> run(
            tokens.take(i),
        ).open.len() == 0
}

/// No token closes a game.
pub open spec fn no_results(tokens: Seq<LexToken>) -> bool {
    forall|i: int| 0 <= i < tokens.len() ==> !(#[trigger] tokens[i] is Result)
}

proof fn lemma_sibling_ids(tokens: Seq<LexToken>)
    requires
        no_results(tokens),
        starts_at_mainline(tokens),
        opened_ids(tokens).len() < 65535,
    ensures
        run(tokens).done.len() == 0,
        run(tokens).counter == opened_ids(tokens).len() + 1,
        forall|i: int| 0 <= i < opened_ids(tokens).len() ==> #[trigger] opened_ids(tokens)[i] == i + 1,
        forall|i: int|
            0 <= i < opened_ids(tokens).len() ==> run(tokens).current.variations.contains_key(
                #[trigger] opened_ids(tokens)[i],
            ),
    decreases tokens.len(),
{
    if tokens.len() > 0 {
        let prev = tokens.drop_last();
        let t = tokens.last();
        assert forall|i: int| 0 <= i < prev.len() implies !(#[trigger] prev[i] is Result) by {
            assert(prev[i] == tokens[i]);
        }
        assert forall|i: int|
            0 <= i < prev.len() && (#[trigger] prev[i]) is StartVariation implies run(
                prev.take(i),
            ).open.len() == 0 by {
            assert(prev[i] == tokens[i]);
            assert(prev.take(i) =~= tokens.take(i));
        }
        assert(!(tokens[tokens.len() - 1] is Result));
        assert(opened_ids(prev).len() <= opened_ids(tokens).len());
        lemma_sibling_ids(prev);
        let s = run(prev);
        let s2 = run(tokens);
        if t is StartVariation {
            assert(tokens.take(tokens.len() - 1) =~= prev);
            assert(s.open.len() == 0);
            let c = s.counter as nat;
            assert(c * (0nat + 1) == c) by (nonlinear_arith);
            assert(new_variation_id(s.counter, 0) == s.counter);
        }
    }
}

/// Within a game, variations that are all opened from the mainline get the
/// ids 1, 2, 3, ... in order, so no two of them share an id, and each has its
/// entry in the game (while fewer than 2^16 - 1 are opened).
pub proof fn law_sibling_ids_distinct(tokens: Seq<LexToken>)
    requires
        no_results(tokens),
        starts_at_mainline(tokens),
        opened_ids(tokens).len() < 65535,
    ensures
        forall|i: int, j: int|
            0 <= i < j < opened_ids(tokens).len() ==> opened_ids(tokens)[i] != opened_ids(tokens)[j],
        forall|i: int|
            0 <= i < opened_ids(tokens).len() ==> build(tokens).len() == 1
                && build(tokens)[0].variations.contains_key(#[trigger] opened_ids(tokens)[i]),
{
    lemma_sibling_ids(tokens);
    if opened_ids(tokens).len() > 0 {
        assert(opened_ids(tokens)[0] == 1);
        assert(!GameModel::fresh().variations.contains_key(1u16));
        assert(run(tokens).current != GameModel::fresh());
    }
    assert forall|i: int, j: int|
        0 <= i < j < opened_ids(tokens).len() implies opened_ids(tokens)[i] != opened_ids(
            tokens,
        )[j] by {
        assert(opened_ids(tokens)[i] == i + 1);
        assert(opened_ids(tokens)[j] == j + 1);
    }
}

proof fn lemma_games_closed(tokens: Seq<LexToken>)
    ensures
        run(tokens).done.len() == count_results(tokens),
    decreases tokens.len(),
{
    if tokens.len() > 0 {
        lemma_games_closed(tokens.drop_last());
    }
}

/// A game still open when the input ends is kept: where the last token is a
/// move-level token, there is one game per result token and one more, and the
/// last game's active variation ends with that token.
pub proof fn law_unfinished_game_kept(tokens: Seq<LexToken>)
    requires
        tokens.len() > 0,
        tokens.last().is_node(),
    ensures
        build(tokens).len() == count_results(tokens) + 1,
        build(tokens).last().variations[active_id(run(tokens).open)].last() == PgnToken::Token(
            tokens.last(),
        ),
{
    lemma_games_closed(tokens);
    let s = run(tokens.drop_last());
    let s2 = run(tokens);
    let id = active_id(s.open);
    lemma_run_wf(tokens.drop_last());
    assert(s2.current.variations[id].len() > 0);
    if id == 0 {
        assert(GameModel::fresh().variations[0].len() == 0);
    } else {
        assert(!GameModel::fresh().variations.contains_key(id));
    }
    assert(s2.current != GameModel::fresh());
}

/// A game has its mainline, and every pointer in it names a variation that
/// the game holds.
pub open spec fn game_wf(g: GameModel) -> bool {
    &&& g.variations.contains_key(0)
    &&& forall|k: u16, i: int|
        #![trigger g.variations[k][i]]
        g.variations.contains_key(k) && 0 <= i < g.variations[k].len() && g.variations[k][i] is VariationPointer
            ==> g.variations.contains_key(g.variations[k][i]->VariationPointer_0)
}

proof fn lemma_append_keeps_wf(g: GameModel, a: u16, e: PgnToken)
    requires
        game_wf(g),
        g.variations.contains_key(a),
        e is VariationPointer ==> g.variations.contains_key(e->VariationPointer_0),
    ensures
        game_wf(crate::ast::append_entry(g, a, e)),
{
    let g2 = crate::ast::append_entry(g, a, e);
    assert forall|k: u16, i: int|
        g2.variations.contains_key(k) && 0 <= i < g2.variations[k].len()
            && (#[trigger] g2.variations[k][i]) is VariationPointer implies g2.variations.contains_key(
        g2.variations[k][i]->VariationPointer_0,
    ) by {
        if k == a && i == g.variations[a].len() {
        } else {
            assert(g2.variations[k][i] == g.variations[k][i]);
        }
    }
}

proof fn lemma_run_games_wf(tokens: Seq<LexToken>)
    ensures
        game_wf(run(tokens).current),
        forall|k: int| 0 <= k < run(tokens).done.len() ==> game_wf(#[trigger] run(tokens).done[k]),
    decreases tokens.len(),
{
    if tokens.len() == 0 {
        let g = GameModel::fresh();
        assert(g.variations.contains_key(0));
        assert forall|k: u16, i: int|
            g.variations.contains_key(k) && 0 <= i < g.variations[k].len()
                && (#[trigger] g.variations[k][i]) is VariationPointer implies g.variations.contains_key(
            g.variations[k][i]->VariationPointer_0,
        ) by {
            assert(k == 0);
        }
    } else {
        let prev = tokens.drop_last();
        let t = tokens.last();
        lemma_run_games_wf(prev);
        lemma_run_wf(prev);
        let s = run(prev);
        let s2 = run(tokens);
        let a = active_id(s.open);
        if t.is_node() {
            lemma_append_keeps_wf(s.current, a, PgnToken::Token(t));
        } else if t.is_tag() {
            assert(s2.current.variations == s.current.variations);
        } else if t is Result {
            let g = GameModel::fresh();
            assert forall|k: u16, i: int|
                g.variations.contains_key(k) && 0 <= i < g.variations[k].len()
                    && (#[trigger] g.variations[k][i]) is VariationPointer implies g.variations.contains_key(
                g.variations[k][i]->VariationPointer_0,
            ) by {
                assert(k == 0);
            }
            assert forall|k: int| 0 <= k < s2.done.len() implies game_wf(#[trigger] s2.done[k]) by {
                if k < s.done.len() {
                    assert(s2.done[k] == s.done[k]);
                } else {
                    assert(s2.done[k].variations == s.current.variations);
                }
            }
        } else if t is StartVariation {
            let id = new_variation_id(s.counter, a);
            let g2 = s2.current;
            assert forall|k: u16, i: int|
                g2.variations.contains_key(k) && 0 <= i < g2.variations[k].len()
                    && (#[trigger] g2.variations[k][i]) is VariationPointer implies g2.variations.contains_key(
                g2.variations[k][i]->VariationPointer_0,
            ) by {
                if k == id {
                } else if k == a && i == s.current.variations[a].len() {
                } else {
                    assert(g2.variations[k][i] == s.current.variations[k][i]);
                }
            }
        }
    }
}

/// Every game produced has its mainline, and every variation pointer in it
/// names a variation of the same game.
pub proof fn law_pointers_resolve(tokens: Seq<LexToken>)
    ensures
        forall|k: int| 0 <= k < build(tokens).len() ==> game_wf(#[trigger] build(tokens)[k]),
{
    lemma_run_games_wf(tokens);
}

} // verus!
