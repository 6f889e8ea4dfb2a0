use push_chess::rules::fen::start_position;
use push_chess::rules::movegen::generate_legal_moves;
use push_chess::rules::position::Position;
use push_chess::rules::prepared::{MoveScratch, PreparedMove, generate_prepared};

fn check(pos: &mut Position, scratch: &mut MoveScratch) -> Vec<PreparedMove> {
    let fen = pos.to_fen();
    let key = pos.zobrist;
    let depth = pos.undo_stack.len();
    let (mut direct, mut prepared) = (Vec::new(), Vec::new());
    generate_legal_moves(pos, &mut direct);
    generate_prepared(pos, &mut prepared, scratch);
    assert_eq!(direct, prepared.iter().map(PreparedMove::mv).collect::<Vec<_>>());
    assert_eq!(pos.to_fen(), fen);
    assert_eq!(pos.zobrist, key);
    assert_eq!(pos.undo_stack.len(), depth);
    for (a, m) in prepared.iter().enumerate() {
        let expected = m.board_after(pos);
        let mut effects = Vec::new();
        m.effects(pos, a, &mut effects);
        assert!(effects.len() <= 64);
        assert!(effects.iter().all(|t| t[0] == (a + 1) as i32));
        let mut ordinary = pos.clone();
        ordinary.make_move(&m.mv());
        m.apply(pos);
        assert_eq!(pos.board, expected);
        assert_eq!(pos.board, ordinary.board);
        assert_eq!(pos.to_fen(), ordinary.to_fen());
        let incremental = pos.zobrist;
        pos.compute_zobrist();
        assert_eq!(pos.zobrist, incremental);
        pos.unmake_move();
        assert_eq!(pos.to_fen(), fen);
        assert_eq!(pos.zobrist, key);
    }
    prepared
}

#[test]
fn prepared_matches_reference_on_fixtures_and_reachable_trace() {
    let mut scratch = MoveScratch::default();
    for fen in [
        "7k/P7/R7/8/8/8/8/K7 w - - 0 1",
        "7k/8/8/4R3/4N3/8/8/K7 w - - 0 1",
        "r3k2r/8/8/8/8/8/8/R3K2R w KQkq - 0 1",
        "7k/8/8/3pP3/8/8/8/K7 w - d6 0 1",
    ] {
        check(&mut Position::try_from_fen(fen).ok().unwrap(), &mut scratch);
    }
    let mut pos = start_position();
    let mut seed = 0xcafe_f00du64;
    for _ in 0..192 {
        let moves = check(&mut pos, &mut scratch);
        if moves.is_empty() {
            pos = start_position();
            continue;
        }
        seed ^= seed << 13;
        seed ^= seed >> 7;
        seed ^= seed << 17;
        moves[seed as usize % moves.len()].apply(&mut pos);
    }
}

#[test]
fn exact_effect_tokens_include_both_ends_of_a_simple_move() {
    let mut pos = Position::try_from_fen("7k/8/8/8/8/8/8/K7 w - - 0 1").ok().unwrap();
    let mut moves = Vec::new();
    generate_prepared(&mut pos, &mut moves, &mut MoveScratch::default());
    let m = moves
        .iter()
        .find(|m| m.mv.from == 0 && m.mv.to == 1)
        .unwrap();
    let mut tokens = Vec::new();
    m.effects(&pos, 0, &mut tokens);
    assert_eq!(tokens, [[1, 0, 6, 0], [1, 1, 0, 6]]);
}
