use push_chess::engines::astra::eval::{evaluate, is_push, profile};
use push_chess::engines::astra::search::{Astra, INF, REDUCTIONS};
use push_chess::engines::astra::{MATE, MATE_BOUND};
use push_chess::rules::fen::start_position;
use push_chess::rules::movegen::generate_legal_moves;
use push_chess::rules::position::Position;
use push_chess::rules::types::{Color, Move, SearchBudget};

/// The late-move reductions Astra searches with: 64 depths by 256 move counts.
fn reductions() -> Vec<i32> {
    let mut table = Vec::with_capacity(REDUCTIONS);
    for depth in 0..64 {
        for moves in 0..256 {
            table.push(if depth < 3 || moves < 3 {
                0
            } else {
                (0.5 + (depth as f64).ln() * (moves as f64).ln() / 2.3) as i32
            });
        }
    }
    table
}

fn engine(variant: usize) -> Astra {
    Astra::new(variant, reductions())
}

fn position(fen: &str) -> Position {
    let mut p = Position::default();
    p.set_from_fen(fen);
    p
}

#[test]
fn recognizes_pushes_through_empty_destinations_and_knight_paths() {
    let p = position("7k/8/8/8/8/4P3/8/K3R3 w - - 0 1");
    assert!(is_push(
        &p,
        Move {
            from: 4,
            to: 36,
            ..Move::default()
        }
    ));
    let p = position("7k/8/4P3/8/4N3/8/8/K7 w - - 0 1");
    assert!(is_push(
        &p,
        Move {
            from: 28,
            to: 45,
            path_kind: 1,
            ..Move::default()
        }
    ));
}

#[test]
fn quiescence_searches_quiet_check_evasions_and_detects_mate() {
    let mut engine = engine(0);
    let mut p = position("k3r3/8/8/8/8/8/8/4K3 w - - 0 1");
    let fen = p.to_fen();
    assert!(engine.quiescence(&mut p, -INF, INF, 0, 0) > -MATE_BOUND);
    assert_eq!(p.to_fen(), fen);
    let mut p = position("7k/6Q1/5K2/8/8/8/8/8 b - - 0 1");
    assert_eq!(engine.quiescence(&mut p, -INF, INF, 4, 0), -MATE + 4);
}

#[test]
fn finds_mate_in_one_and_obeys_node_budget() {
    let mut engine = engine(0);
    let mut p = position("7k/5K2/6Q1/8/8/8/8/8 w - - 0 1");
    let budget = SearchBudget {
        max_depth: 2,
        ..SearchBudget::default()
    };
    let (mv, stats) = engine.choose_move(&mut p, &budget);
    assert!(stats.eval_cp >= MATE_BOUND);
    p.make_move(&mv);
    assert!(p.in_check());
    let mut replies = Vec::new();
    generate_legal_moves(&mut p, &mut replies);
    assert!(replies.is_empty());
    let mut p = start_position();
    let before = p.to_fen();
    let (_, stats) = engine.choose_move(
        &mut p,
        &SearchBudget {
            max_nodes: 250,
            ..SearchBudget::default()
        },
    );
    assert!(stats.nodes <= 250);
    assert_eq!(p.to_fen(), before);
    assert!(p.undo_stack.is_empty());
}

#[test]
fn every_astra_profile_returns_legal_moves_without_changing_position() {
    for variant in 0..7 {
        let mut engine = engine(variant);
        engine.new_game(Color::White, 1);
        for fen in [
            "rnbqkbnr/pppppppp/8/8/8/8/PPPPPPPP/RNBQKBNR w KQkq - 0 1",
            "7k/8/4RB2/8/4N3/8/8/K7 w - - 0 1",
        ] {
            let mut pos = position(fen);
            let original = pos.to_fen();
            let hash = pos.zobrist;
            let mut legal = Vec::new();
            generate_legal_moves(&mut pos, &mut legal);
            let budget = SearchBudget {
                max_time_us: 5_000,
                ..SearchBudget::default()
            };
            let (mv, _) = engine.choose_move(&mut pos, &budget);
            assert!(legal.contains(&mv), "{} returned {mv:?}", engine.name());
            assert_eq!(pos.to_fen(), original, "{} changed the board", engine.name());
            assert_eq!(pos.zobrist, hash, "{} changed the hash", engine.name());
            assert!(pos.undo_stack.is_empty(), "{} leaked undo records", engine.name());
        }
    }
}

#[test]
fn profiles_name_the_experiments_in_order() {
    let names: Vec<_> = (0..7).map(|v| profile(v).name).collect();
    assert_eq!(
        names,
        ["astra", "sentinel", "bastion", "outrider", "tactician", "bedrock", "meridian"]
    );
    assert!(profile(6).pressure && profile(6).races && profile(6).tactical);
    assert!(profile(5).conservative && !profile(0).conservative);
}

#[test]
fn evaluation_is_symmetric_at_the_start_and_bounded() {
    let p = start_position();
    // Ten points for the move, nothing else, in the symmetric start.
    assert_eq!(evaluate(&p, profile(0)), 10);
    let p = position("7k/8/8/8/8/8/8/KQQQQQQQ w - - 0 1");
    let v = evaluate(&p, profile(6));
    assert!(v > 0 && v < MATE_BOUND);
}

#[test]
fn stalemate_is_a_draw_for_terminal_witness_profiles() {
    // Black to move has no legal move and is not in check.
    let mut p = position("7k/5K2/6Q1/8/8/8/8/8 b - - 0 1");
    let mut sentinel = engine(1);
    let (mv, stats) = sentinel.choose_move(&mut p, &SearchBudget { max_depth: 2, ..SearchBudget::default() });
    assert_eq!(mv, Move::default());
    assert_eq!(stats.nodes, 0);
}
