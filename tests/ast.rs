use pgn_ast::{pgn_tokens_to_ast, LexToken, PgnGame, PgnToken};
use std::collections::VecDeque;

fn mv(s: &str) -> LexToken {
    LexToken::Move(s.as_bytes().to_vec())
}

fn res(s: &str) -> LexToken {
    LexToken::Result(s.as_bytes().to_vec())
}

fn start() -> LexToken {
    LexToken::StartVariation(b"(".to_vec())
}

fn end() -> LexToken {
    LexToken::EndVariation(b")".to_vec())
}

fn node(t: LexToken) -> PgnToken {
    PgnToken::Token(t)
}

fn run(tokens: Vec<LexToken>) -> Vec<PgnGame> {
    let mut queue: VecDeque<LexToken> = tokens.into_iter().collect();
    let games = pgn_tokens_to_ast(&mut queue);
    assert!(queue.is_empty());
    games
}

fn entries(game: &PgnGame, id: u16) -> Vec<PgnToken> {
    game.variation(id).expect("variation present").0.clone()
}

#[test]
fn headers_and_mainline_of_one_game() {
    let tag = LexToken::TagSymbol(b"Event".to_vec());
    let val = LexToken::TagString(b"F".to_vec());
    let games = run(vec![tag.clone(), val.clone(), mv("e4"), mv("e5"), res("1-0")]);
    assert_eq!(games.len(), 1);
    assert_eq!(games[0].headers().clone(), vec![tag, val, res("1-0")]);
    assert_eq!(entries(&games[0], 0), vec![node(mv("e4")), node(mv("e5"))]);
    assert_eq!(games[0].variation_count(), 1);
}

#[test]
fn variation_between_mainline_moves() {
    let games = run(vec![mv("e4"), start(), mv("d4"), end(), mv("e5"), res("1-0")]);
    assert_eq!(games.len(), 1);
    assert_eq!(
        entries(&games[0], 0),
        vec![node(mv("e4")), PgnToken::VariationPointer(1), node(mv("e5"))]
    );
    assert_eq!(entries(&games[0], 1), vec![node(mv("d4"))]);
    assert_eq!(games[0].variation_count(), 2);
}

#[test]
fn adjacent_start_and_end_leave_empty_variation() {
    let games = run(vec![mv("e4"), start(), end(), mv("e5")]);
    assert_eq!(games.len(), 1);
    assert_eq!(
        entries(&games[0], 0),
        vec![node(mv("e4")), PgnToken::VariationPointer(1), node(mv("e5"))]
    );
    assert_eq!(entries(&games[0], 1), Vec::<PgnToken>::new());
}

#[test]
fn nested_variations_point_from_parent() {
    let games = run(vec![
        mv("e4"),
        start(),
        mv("d4"),
        start(),
        mv("c4"),
        end(),
        mv("d5"),
        end(),
        mv("e5"),
        res("*"),
    ]);
    let g = &games[0];
    assert_eq!(g.variation_count(), 3);
    // the first id is 1 * (0 + 1), the second 2 * (1 + 1)
    assert_eq!(
        entries(g, 0),
        vec![node(mv("e4")), PgnToken::VariationPointer(1), node(mv("e5"))]
    );
    assert_eq!(
        entries(g, 1),
        vec![node(mv("d4")), PgnToken::VariationPointer(4), node(mv("d5"))]
    );
    assert_eq!(entries(g, 4), vec![node(mv("c4"))]);
}

#[test]
fn game_without_result_is_kept() {
    let games = run(vec![mv("e4"), res("1-0"), mv("d4"), mv("d5")]);
    assert_eq!(games.len(), 2);
    assert_eq!(games[1].headers().len(), 0);
    assert_eq!(entries(&games[1], 0), vec![node(mv("d4")), node(mv("d5"))]);
}

#[test]
fn lone_moves_make_one_game() {
    let games = run(vec![mv("e4")]);
    assert_eq!(games.len(), 1);
    assert_eq!(entries(&games[0], 0), vec![node(mv("e4"))]);
}

#[test]
fn empty_input_gives_no_games() {
    assert_eq!(run(vec![]).len(), 0);
}

#[test]
fn placeholder_after_last_result_is_dropped() {
    let games = run(vec![
        mv("e4"),
        res("1-0"),
        LexToken::NullMove(b"--".to_vec()),
        end(),
    ]);
    assert_eq!(games.len(), 1);
}

#[test]
fn flat_stream_gives_one_game_per_result() {
    let games = run(vec![
        LexToken::TagSymbol(b"White".to_vec()),
        LexToken::TagString(b"A".to_vec()),
        LexToken::MoveNumber(1, b".".to_vec()),
        mv("e4"),
        LexToken::NAG(b"$1".to_vec()),
        res("1-0"),
        LexToken::TagSymbol(b"White".to_vec()),
        LexToken::TagString(b"B".to_vec()),
        LexToken::Commentary(b"quiet".to_vec()),
        mv("d4"),
        LexToken::MoveAnnotation(b"!".to_vec()),
        res("0-1"),
        mv("c4"),
        res("1/2-1/2"),
    ]);
    assert_eq!(games.len(), 3);
    for g in &games {
        assert_eq!(g.variation_count(), 1);
    }
    assert_eq!(
        games[0].headers().clone(),
        vec![
            LexToken::TagSymbol(b"White".to_vec()),
            LexToken::TagString(b"A".to_vec()),
            res("1-0")
        ]
    );
    assert_eq!(
        entries(&games[0], 0),
        vec![
            node(LexToken::MoveNumber(1, b".".to_vec())),
            node(mv("e4")),
            node(LexToken::NAG(b"$1".to_vec()))
        ]
    );
    assert_eq!(
        entries(&games[1], 0),
        vec![
            node(LexToken::Commentary(b"quiet".to_vec())),
            node(mv("d4")),
            node(LexToken::MoveAnnotation(b"!".to_vec()))
        ]
    );
    assert_eq!(games[2].headers().clone(), vec![res("1/2-1/2")]);
    assert_eq!(entries(&games[2], 0), vec![node(mv("c4"))]);
}

#[test]
fn null_moves_and_escapes_are_dropped() {
    let games = run(vec![
        mv("e4"),
        LexToken::NullMove(b"--".to_vec()),
        LexToken::EscapeComment(b"% note".to_vec()),
        mv("e5"),
        res("*"),
    ]);
    assert_eq!(entries(&games[0], 0), vec![node(mv("e4")), node(mv("e5"))]);
    assert_eq!(games[0].headers().clone(), vec![res("*")]);
}

#[test]
fn sibling_variations_get_consecutive_ids() {
    let mut tokens = vec![mv("e4")];
    for _ in 0..1000 {
        tokens.push(start());
        tokens.push(mv("d4"));
        tokens.push(end());
    }
    let games = run(tokens);
    let g = &games[0];
    assert_eq!(g.variation_count(), 1001);
    let main = entries(g, 0);
    assert_eq!(main.len(), 1001);
    for id in 1..=1000u16 {
        assert_eq!(main[id as usize], PgnToken::VariationPointer(id));
        assert_eq!(entries(g, id), vec![node(mv("d4"))]);
    }
}

#[test]
fn counter_restarts_with_each_game() {
    let games = run(vec![start(), end(), start(), end(), res("1-0"), start(), end(), res("0-1")]);
    assert_eq!(games.len(), 2);
    assert_eq!(
        entries(&games[0], 0),
        vec![PgnToken::VariationPointer(1), PgnToken::VariationPointer(2)]
    );
    assert_eq!(entries(&games[1], 0), vec![PgnToken::VariationPointer(1)]);
}

#[test]
fn unmatched_end_at_mainline_is_ignored() {
    let games = run(vec![end(), mv("e4"), end(), mv("e5"), res("1-0")]);
    assert_eq!(entries(&games[0], 0), vec![node(mv("e4")), node(mv("e5"))]);
}

#[test]
fn unterminated_variation_is_kept() {
    let games = run(vec![mv("e4"), start(), mv("d4"), res("1-0"), mv("c4")]);
    assert_eq!(games.len(), 2);
    assert_eq!(entries(&games[0], 1), vec![node(mv("d4"))]);
    assert_eq!(games[0].headers().clone(), vec![res("1-0")]);
    // the next game starts at its mainline
    assert_eq!(entries(&games[1], 0), vec![node(mv("c4"))]);
    assert!(games[1].variation(1).is_none());
}

#[test]
fn nested_then_sibling_ids_can_repeat() {
    // ids: 1, then 2 * (1 + 1) = 4, then 3, then 4 again
    let games = run(vec![start(), start(), end(), end(), start(), end(), start(), end()]);
    let g = &games[0];
    assert_eq!(
        entries(g, 0),
        vec![
            PgnToken::VariationPointer(1),
            PgnToken::VariationPointer(3),
            PgnToken::VariationPointer(4)
        ]
    );
    assert_eq!(entries(g, 1), vec![PgnToken::VariationPointer(4)]);
    assert_eq!(g.variation_count(), 4);
}

#[test]
fn deep_nesting_ids_wrap_in_sixteen_bits() {
    let mut tokens = Vec::new();
    for _ in 0..8 {
        tokens.push(start());
    }
    let games = run(tokens);
    // 1, 4, 15, 64, 325, 1956, 13699, 8 * 13700 = 109600 = 44064 + 65536
    let ids: [u16; 8] = [1, 4, 15, 64, 325, 1956, 13699, 44064];
    assert_eq!(entries(&games[0], 0), vec![PgnToken::VariationPointer(1)]);
    for k in 0..7 {
        assert_eq!(
            entries(&games[0], ids[k]),
            vec![PgnToken::VariationPointer(ids[k + 1])]
        );
    }
    assert_eq!(entries(&games[0], 44064), Vec::<PgnToken>::new());
}

#[test]
fn missing_variation_is_none() {
    let games = run(vec![mv("e4")]);
    assert!(games[0].variation(7).is_none());
    assert_eq!(PgnToken::default(), PgnToken::Empty);
}
