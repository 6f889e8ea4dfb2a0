use push_chess::candidates::nexus::eval::evaluate;
use push_chess::rules::fen::start_position;
use push_chess::candidates::omega::search::LMR_SIZE;
use push_chess::candidates::nexus::search::Nexus;
use push_chess::rules::movegen::generate_legal_moves;
use push_chess::rules::position::Position;
use push_chess::rules::types::{Color, Move, SearchBudget};

fn reductions() -> Vec<i32> {
    let mut table = Vec::with_capacity(LMR_SIZE);
    for d in 0..32 {
        for m in 0..256 {
            table.push(if d < 2 || m < 3 {
                0
            } else {
                (0.5 + (d as f64).ln() * (m as f64).ln() / 1.8) as i32
            });
        }
    }
    table
}

fn position(fen: &str) -> Position {
    let mut p = Position::default();
    p.set_from_fen(fen);
    p
}

fn timed(us: i64) -> SearchBudget {
    SearchBudget {
        max_time_us: us,
        ..SearchBudget::default()
    }
}

#[test]
fn nexus_returns_legal_moves_without_changing_position() {
    let mut engine = Nexus::new(reductions());
    engine.new_game(Color::White, 1);
    for fen in [
        "rnbqkbnr/pppppppp/8/8/8/8/PPPPPPPP/RNBQKBNR w KQkq - 0 1",
        "7k/8/4RB2/8/4N3/8/8/K7 w - - 0 1",
        "r3k2r/pp3ppp/8/3P4/8/8/PP3PPP/R3K2R b KQkq - 0 1",
    ] {
        let mut pos = position(fen);
        let original = pos.to_fen();
        let hash = pos.zobrist;
        let mut legal = Vec::new();
        generate_legal_moves(&mut pos, &mut legal);
        let (mv, stats) = engine.choose_move(&mut pos, &timed(20_000));
        assert!(legal.contains(&mv), "titan returned {mv:?}");
        assert_eq!(pos.to_fen(), original);
        assert_eq!(pos.zobrist, hash);
        assert!(pos.undo_stack.is_empty());
        assert!(stats.diag_json.starts_with("{\"engine\":\"nexus_001\",\"qn\":"));
        assert!(stats.diag_json.ends_with("]}"));
        assert_eq!(engine.name(), "nexus");
    }
}

#[test]
fn nexus_finds_mate_in_one() {
    let mut engine = Nexus::new(reductions());
    let mut p = position("7k/5K2/6Q1/8/8/8/8/8 w - - 0 1");
    let (mv, stats) = engine.choose_move(&mut p, &timed(200_000));
    assert!(stats.depth_reached >= 1);
    p.make_move(&mv);
    assert!(p.in_check());
    let mut replies = Vec::new();
    generate_legal_moves(&mut p, &mut replies);
    assert!(replies.is_empty());
}

#[test]
fn nexus_answers_a_single_reply_at_once_and_nothing_without_moves() {
    let mut engine = Nexus::new(reductions());
    let mut p = position("7k/8/6K1/8/8/8/8/R7 b - - 0 1");
    let mut legal = Vec::new();
    generate_legal_moves(&mut p, &mut legal);
    assert_eq!(legal.len(), 1);
    let (mv, stats) = engine.choose_move(&mut p, &timed(10_000));
    assert_eq!(mv, legal[0]);
    assert_eq!(stats.nodes, 1);
    assert_eq!(stats.depth_reached, 0);
    let mut mated = position("7k/6Q1/5K2/8/8/8/8/8 b - - 0 1");
    let (mv, stats) = engine.choose_move(&mut mated, &timed(10_000));
    assert_eq!(mv, Move::default());
    assert_eq!(stats.nodes, 0);
}


#[test]
fn nexus_evaluation_values() {
    // Chimera's terms give 18 at the start; push awareness, mobility and
    // defended pieces are even there.
    assert_eq!(evaluate(&start_position()), 18);
    // Chimera's 158, the e2 pawn beside the king with e3 empty behind it
    // (10 + 15), and the pawn defended by its king (8).
    assert_eq!(evaluate(&position("4k3/8/8/8/8/8/4P3/4K3 w - - 0 1")), 191);
    assert_eq!(evaluate(&position("4k3/8/8/8/8/8/4P3/4K3 b - - 0 1")), -191);
}
