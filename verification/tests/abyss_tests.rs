use push_chess::candidates::abyss::{ABYSS_LMR_SIZE, AbyssEngine, pack_entry};
use push_chess::rules::movegen::generate_legal_moves;
use push_chess::rules::position::Position;
use push_chess::rules::types::{Color, Move, SearchBudget};

fn reductions() -> Vec<i32> {
    let mut table = Vec::with_capacity(ABYSS_LMR_SIZE);
    for d in 0..32 {
        for m in 0..256 {
            table.push(if d < 2 || m < 3 {
                0
            } else {
                (0.75 + (d as f64).ln() * (m as f64).ln() / 2.0) as i32
            });
        }
    }
    table
}

fn position(fen: &str) -> Position {
    let mut p = Position::default();
    p.set_from_fen(fen);
    p
}

fn timed(us: i64) -> SearchBudget {
    SearchBudget {
        max_time_us: us,
        ..SearchBudget::default()
    }
}

#[test]
fn abyss_returns_legal_moves_without_changing_position() {
    let mut engine = AbyssEngine::new(reductions());
    engine.new_game(Color::White, 1);
    for fen in [
        "rnbqkbnr/pppppppp/8/8/8/8/PPPPPPPP/RNBQKBNR w KQkq - 0 1",
        "7k/8/4RB2/8/4N3/8/8/K7 w - - 0 1",
        "r3k2r/pp3ppp/8/3P4/8/8/PP3PPP/R3K2R b KQkq - 0 1",
    ] {
        let mut pos = position(fen);
        let original = pos.to_fen();
        let hash = pos.zobrist;
        let mut legal = Vec::new();
        generate_legal_moves(&mut pos, &mut legal);
        let (mv, stats) = engine.choose_move(&mut pos, &timed(20_000));
        assert!(legal.contains(&mv), "titan returned {mv:?}");
        assert_eq!(pos.to_fen(), original);
        assert_eq!(pos.zobrist, hash);
        assert!(pos.undo_stack.is_empty());
        assert!(stats.diag_json.is_empty());
        assert_eq!(engine.name(), "abyss");
    }
}

#[test]
fn abyss_finds_mate_in_one() {
    let mut engine = AbyssEngine::new(reductions());
    let mut p = position("7k/5K2/6Q1/8/8/8/8/8 w - - 0 1");
    let (mv, stats) = engine.choose_move(&mut p, &timed(200_000));
    assert!(stats.depth_reached >= 1);
    p.make_move(&mv);
    assert!(p.in_check());
    let mut replies = Vec::new();
    generate_legal_moves(&mut p, &mut replies);
    assert!(replies.is_empty());
}

#[test]
fn abyss_answers_a_single_reply_at_once_and_nothing_without_moves() {
    let mut engine = AbyssEngine::new(reductions());
    let mut p = position("7k/8/6K1/8/8/8/8/R7 b - - 0 1");
    let mut legal = Vec::new();
    generate_legal_moves(&mut p, &mut legal);
    assert_eq!(legal.len(), 1);
    let (mv, stats) = engine.choose_move(&mut p, &timed(10_000));
    assert_eq!(mv, legal[0]);
    assert_eq!(stats.nodes, 1);
    assert_eq!(stats.depth_reached, 0);
    assert!(stats.pv.is_empty());
    let mut mated = position("7k/6Q1/5K2/8/8/8/8/8 b - - 0 1");
    let (mv, stats) = engine.choose_move(&mut mated, &timed(10_000));
    assert_eq!(mv, Move::default());
    assert_eq!(stats.nodes, 0);
}


#[test]
fn abyss_table_entries_pack_their_fields() {
    // Key's top 16 bits, move's low 23 bits from bit 25, the score's low 16
    // bits from bit 9, depth's low 7 bits from bit 2, the bound's low 2 bits.
    assert_eq!(pack_entry(0xABCD_0000_0000_1234, 0x123456, -5, 7, 2), 0xabcd_2468_adff_f61e);
    assert_eq!(pack_entry(0, 0, 0, 0, 0), 0);
    assert_eq!(pack_entry(u64::MAX, u32::MAX, -1, 127, 3), u64::MAX);
}
