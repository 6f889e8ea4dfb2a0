use push_chess::candidates::void::eval::{eval_piece, evaluate};
use push_chess::candidates::void::search::{LMR_SIZE, Void, unpack_move};
use push_chess::rules::fen::start_position;
use push_chess::rules::movegen::generate_legal_moves;
use push_chess::rules::position::Position;
use push_chess::rules::types::{Color, Move, PieceType, SearchBudget, SpecialMove};

fn reductions() -> Vec<i32> {
    let mut table = Vec::with_capacity(LMR_SIZE);
    for d in 0..32 {
        for m in 0..256 {
            table.push(if d < 2 || m < 3 {
                0
            } else {
                (0.5 + (d as f64).ln() * (m as f64).ln() / 1.8) as i32
            });
        }
    }
    table
}

fn position(fen: &str) -> Position {
    let mut p = Position::default();
    p.set_from_fen(fen);
    p
}

fn timed(us: i64) -> SearchBudget {
    SearchBudget {
        max_time_us: us,
        ..SearchBudget::default()
    }
}

#[test]
fn void_returns_legal_moves_without_changing_position() {
    let mut engine = Void::new(reductions());
    engine.new_game(Color::White, 1);
    for fen in [
        "rnbqkbnr/pppppppp/8/8/8/8/PPPPPPPP/RNBQKBNR w KQkq - 0 1",
        "7k/8/4RB2/8/4N3/8/8/K7 w - - 0 1",
    ] {
        let mut pos = position(fen);
        let original = pos.to_fen();
        let hash = pos.zobrist;
        let mut legal = Vec::new();
        generate_legal_moves(&mut pos, &mut legal);
        let (mv, stats) = engine.choose_move(&mut pos, &timed(20_000));
        assert!(legal.contains(&mv), "void returned {mv:?}");
        assert_eq!(pos.to_fen(), original);
        assert_eq!(pos.zobrist, hash);
        assert!(pos.undo_stack.is_empty());
        assert!(stats.diag_json.starts_with("{\"engine\":\"void_002\",\"qn\":"));
        assert!(stats.diag_json.contains("\"cut_types\":{\"cap\":"));
        assert!(stats.diag_json.ends_with("]}"));
    }
}

#[test]
fn void_finds_mate_in_one() {
    let mut engine = Void::new(reductions());
    let mut p = position("7k/5K2/6Q1/8/8/8/8/8 w - - 0 1");
    let (mv, _) = engine.choose_move(&mut p, &timed(200_000));
    p.make_move(&mv);
    assert!(p.in_check());
    let mut replies = Vec::new();
    generate_legal_moves(&mut p, &mut replies);
    assert!(replies.is_empty());
}

#[test]
fn void_packs_moves_losslessly_into_the_table_layout() {
    let m = Move {
        from: 12,
        to: 60,
        path_kind: 2,
        stop_index: 3,
        special: SpecialMove::Promotion,
        promo_piece: PieceType::Knight,
    };
    assert_eq!(unpack_move(m.id()), m);
    assert_eq!(unpack_move(0), Move::default());
}

#[test]
fn void_evaluation_is_material_and_placement() {
    assert_eq!(evaluate(&start_position()), 0);
    // A lone white queen on d1 against two bare kings, White to move.
    let p = position("7k/8/8/8/8/8/8/K2Q4 w - - 0 1");
    let expected = eval_piece(PieceType::Queen, Color::White, 3) + eval_piece(PieceType::King, Color::White, 0)
        - eval_piece(PieceType::King, Color::Black, 63);
    assert_eq!(evaluate(&p), expected);
    assert_eq!(eval_piece(PieceType::Queen, Color::White, 3), 895);
}

#[test]
fn material_score_turns_with_the_side_to_move() {
    let white = Position::try_from_fen("4k3/8/8/8/8/8/6P1/6K1 w - - 0 1").unwrap();
    let black = Position::try_from_fen("4k3/8/8/8/8/8/6P1/6K1 b - - 0 1").unwrap();
    assert_eq!(evaluate(&white), 30 + 110);
    assert_eq!(evaluate(&black), -(30 + 110));
}
