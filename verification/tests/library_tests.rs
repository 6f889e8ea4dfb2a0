use push_chess::candidates::cataclysm::board::{pack as candidate_pack, step};
use push_chess::candidates::cataclysm::eval::piece_score;
use push_chess::engine::shared::{Buckets, SearchLimits, pick_best};
use push_chess::engines::astra::{Bound, Entry, MATE_BOUND, pack, placement, probe, store};
use push_chess::engines::cataclysm::network::{Accumulator, BYTES, Model, Network};
use push_chess::engines::cataclysm::learning::Evaluator;
use push_chess::engines::cataclysm::{HashSize, decode, encode};
use push_chess::game::{Outcome, adjudicate, adjudicate_with_repetitions};
use push_chess::rules::fen::start_position;
use push_chess::rules::fen_check::FenError;
use push_chess::rules::movegen::{can_make_move, generate_legal_moves, generate_pseudo_legal_moves};
use push_chess::rules::position::Position;
use push_chess::rules::types::{
    Color, Move, Piece, PieceType, SearchBudget, SpecialMove, castling_after_move, make_square, opponent,
};
use push_chess::session::AnalysisOptions;

fn fnv(bytes: &[u8]) -> u64 {
    let mut h: u64 = 0xcbf29ce484222325;
    for b in bytes {
        h = (h ^ u64::from(*b)).wrapping_mul(0x100000001b3);
    }
    h
}

#[test]
fn start_position_prints_the_standard_fen() {
    assert_eq!(
        start_position().to_fen(),
        "rnbqkbnr/pppppppp/8/8/8/8/PPPPPPPP/RNBQKBNR w KQkq - 0 1"
    );
    let mut read = Position::default();
    read.set_from_fen("rnbqkbnr/pppppppp/8/8/8/8/PPPPPPPP/RNBQKBNR w KQkq - 0 1");
    let start = start_position();
    assert_eq!(read.board, start.board);
    assert_eq!(read.zobrist, start.zobrist);
    assert_eq!(read.king_sq, start.king_sq);
}

#[test]
fn set_from_fen_fills_missing_fields_with_defaults() {
    let mut pos = Position::default();
    pos.set_from_fen("4k3/8/8/8/8/8/8/4K3");
    assert_eq!(pos.side_to_move, Color::White);
    assert_eq!(pos.castling_rights, 0);
    assert_eq!(pos.ep_square, 64);
    assert_eq!(pos.halfmove_clock, 0);
    assert_eq!(pos.fullmove_number, 1);
    assert_eq!(pos.to_fen(), "4k3/8/8/8/8/8/8/4K3 w - - 0 1");
    // Unreadable counters fall back to the defaults; a leading plus is read.
    pos.set_from_fen("4k3/8/8/8/8/8/8/4K3 b Kq e3 x9 +42");
    assert_eq!(pos.side_to_move, Color::Black);
    assert_eq!(pos.castling_rights, 1 | 8);
    assert_eq!(pos.ep_square, 20);
    assert_eq!(pos.halfmove_clock, 0);
    assert_eq!(pos.fullmove_number, 42);
    pos.set_from_fen("4k3/8/8/8/8/8/8/4K3 w - - 65535 65536");
    assert_eq!(pos.halfmove_clock, 65535);
    assert_eq!(pos.fullmove_number, 1);
}

#[test]
fn fen_round_trips_through_text() {
    for fen in [
        "r3k2r/8/8/3pP3/8/8/8/R3K2R w KQkq d6 0 1",
        "7k/8/4RB2/8/4N3/8/8/K7 w - - 17 93",
        "8/8/8/8/8/8/8/8 b - - 0 1",
    ] {
        let mut pos = Position::default();
        pos.set_from_fen(fen);
        assert_eq!(pos.to_fen(), fen);
    }
}

#[test]
fn every_fen_refusal_has_its_reason() {
    let cases: [(&str, &str); 15] = [
        ("7k/8/8/8/8/8/8/K7 w - - 0 1 ".repeat(10).as_str().to_owned().leak(), "FEN must be ASCII and at most 128 bytes"),
        ("7k/8/8/8/8/8/8/K7 w - - 0 é", "FEN must be ASCII and at most 128 bytes"),
        ("7k/8/8/8/8/8/8/K7 w - - 0 1 junk", "FEN requires six fields"),
        ("7k/8/8/8/8/8/K7 w - - 0 1", "FEN requires eight ranks"),
        ("7k/8/8/8/8/8/8/K6X w - - 0 1", "FEN contains an invalid piece"),
        ("7k/8/8/8/8/8/8/K8 w - - 0 1", "Every FEN rank must contain eight squares"),
        ("8/8/8/8/8/8/8/8 w - - 0 1", "Each side needs exactly one king and at most sixteen pieces"),
        ("7k/8/8/8/8/8/8/K7 x - - 0 1", "Invalid side to move"),
        ("7k/8/8/8/8/8/8/K7 w X - 0 1", "Invalid castling rights"),
        ("7k/8/8/8/8/8/8/K7 w KK - 0 1", "Duplicate castling right"),
        ("7k/8/8/8/8/8/8/K7 w - d3 0 1", "Invalid en-passant square"),
        ("7k/8/8/8/8/8/8/K7 w - - 101 1", "Invalid FEN move counters"),
        ("7k/8/8/8/8/8/8/K7 w K - 0 1", "Castling rights require the king and rook on their home squares"),
        ("7k/8/8/8/8/8/8/K7 w - d6 0 1", "En-passant requires an empty target and the opposing pawn"),
        ("7k/8/8/8/8/8/8/K6R w - - 0 1", "The side that just moved cannot be in check"),
    ];
    for (fen, reason) in cases {
        match Position::try_from_fen(fen) {
            Ok(_) => panic!("accepted {fen}"),
            Err(e) => assert_eq!(e, FenError(reason), "{fen}"),
        }
    }
    let pos = Position::try_from_fen("7k/8/8/3pP3/8/8/8/K7 w - d6 12 40").unwrap();
    assert_eq!(pos.to_fen(), "7k/8/8/3pP3/8/8/8/K7 w - d6 12 40");
    assert!(pos.undo_stack.is_empty());
}

#[test]
fn pseudo_legal_moves_can_all_be_made_and_unmade() {
    let mut pos = Position::try_from_fen("r3k2r/8/8/3pP3/8/8/8/R3K2R w KQkq d6 0 1").unwrap();
    let mut moves = Vec::new();
    generate_pseudo_legal_moves(&pos, &mut moves);
    let fen = pos.to_fen();
    for mv in &moves {
        assert!(can_make_move(&pos, mv));
        pos.make_move(mv);
        pos.unmake_move();
        assert_eq!(pos.to_fen(), fen);
    }
    let mut legal = Vec::new();
    generate_legal_moves(&mut pos, &mut legal);
    assert!(legal.len() <= moves.len());
    assert!(legal.iter().all(|m| moves.contains(m)));
    // A move whose push cannot resolve is refused.
    let stuck = Move {
        from: 0,
        to: 0,
        ..Move::default()
    };
    assert!(!can_make_move(&pos, &stuck));
}

#[test]
fn castling_rights_fall_with_the_squares_a_move_touches() {
    assert_eq!(castling_after_move(0x0F, 1 << 4), 0x0F & !(1 | 2));
    assert_eq!(castling_after_move(0x0F, 1 << 63), 0x0F & !4);
    assert_eq!(castling_after_move(0x0F, 1 << 56), 0x0F & !8);
    assert_eq!(castling_after_move(0x0F, 1 << 20), 0x0F);
    assert_eq!(opponent(Color::White), Color::Black);
    assert_eq!(make_square(3, 4), 28);
}

#[test]
fn adjudication_orders_mate_clock_and_repetition() {
    let mut pos = Position::try_from_fen("7k/8/8/8/8/8/8/K7 w - - 100 1").unwrap();
    let mut moves = Vec::new();
    generate_legal_moves(&mut pos, &mut moves);
    assert_eq!(adjudicate(&pos, &moves), Outcome::FiftyMove);
    assert_eq!(adjudicate_with_repetitions(&pos, false, 2), Outcome::FiftyMove);
    let quiet = Position::try_from_fen("7k/8/8/8/8/8/8/K7 w - - 3 1").unwrap();
    assert_eq!(adjudicate_with_repetitions(&quiet, false, 2), Outcome::Repetition);
    assert_eq!(adjudicate_with_repetitions(&quiet, false, 1), Outcome::Playing);
    assert_eq!(adjudicate_with_repetitions(&quiet, true, 0), Outcome::Stalemate);
    // Shuffle the kings back and forth: the start recurs twice.
    let mut game = Position::try_from_fen("7k/8/8/8/8/8/8/K7 w - - 0 1").unwrap();
    for (from, to) in [(0, 1), (63, 62), (1, 0), (62, 63), (0, 1), (63, 62), (1, 0), (62, 63)] {
        game.make_move(&Move {
            from,
            to,
            ..Move::default()
        });
    }
    let mut moves = Vec::new();
    generate_legal_moves(&mut game, &mut moves);
    assert_eq!(adjudicate(&game, &moves), Outcome::Repetition);
}

#[test]
fn search_limits_count_nodes_and_stop_for_good() {
    let mut limit = SearchLimits::default();
    limit.begin(
        &SearchBudget {
            max_nodes: -5,
            ..SearchBudget::default()
        },
        50,
    );
    assert_eq!(limit.limit, 0);
    assert_eq!(limit.micros, 0);
    for ply in 0..300 {
        assert!(!limit.tick(ply % 7));
    }
    assert_eq!(limit.nodes, 300);
    assert_eq!(limit.seldepth, 6);
    limit.begin(
        &SearchBudget {
            max_time_us: 1,
            ..SearchBudget::default()
        },
        1,
    );
    assert_eq!(limit.micros, 1);
    limit.begin(
        &SearchBudget {
            max_time_us: 1000,
            ..SearchBudget::default()
        },
        50,
    );
    assert_eq!(limit.micros, 500);
    // A clock reading past the allowance at a check stops the search.
    assert!(limit.advance(3, Some(500)));
    assert!(limit.stopped);
    assert!(limit.advance(3, None));
    assert_eq!(limit.nodes, 0);
}

#[test]
fn pick_best_moves_the_first_or_last_maximum_forward() {
    let mut items = [3, 9, 1, 9, 4];
    pick_best::<_, false>(&mut items, 0, |x| *x);
    assert_eq!(items, [9, 3, 1, 9, 4]);
    let mut items = [(3, 'a'), (9, 'b'), (1, 'c'), (9, 'd'), (4, 'e')];
    pick_best::<_, true>(&mut items, 2, |x| x.0);
    assert_eq!(items, [(3, 'a'), (9, 'b'), (9, 'd'), (1, 'c'), (4, 'e')]);
}

#[test]
fn buckets_hold_their_values() {
    let mut buckets: Buckets<u32, 2> = Buckets::new(64);
    assert_eq!(buckets.len(), 8);
    assert!(!buckets.is_empty());
    buckets.fill([7, 8]);
    assert_eq!(*buckets.bucket(5), [7, 8]);
    buckets.set_bucket(5, [1, 2]);
    assert_eq!(*buckets.bucket(5), [1, 2]);
    assert_eq!(*buckets.bucket(4), [7, 8]);
}

#[test]
fn mate_encoding_shifts_only_mate_scores() {
    assert_eq!(encode(29_900, 7), 29_907);
    assert_eq!(encode(-29_900, 7), -29_907);
    assert_eq!(encode(1234, 7), 1234);
    assert_eq!(decode(29_907, 7), 29_900);
    assert_eq!(decode(-100, 7), -100);
}

#[test]
fn transposition_table_stores_and_replaces() {
    let mut table: Buckets<Entry, 2> = Buckets::new(1 << 20 << 4);
    let mv = Move {
        from: 12,
        to: 28,
        ..Move::default()
    };
    assert_eq!(probe(&table, 42), None);
    store(&mut table, 42, 5, MATE_BOUND + 10, Bound::Exact, mv, 3);
    let e = probe(&table, 42).unwrap();
    assert_eq!(e.score, (MATE_BOUND + 13) as i16);
    assert_eq!(e.depth, 5);
    assert_eq!(e.mv, pack(mv));
    assert_eq!(e.mv, mv.id());
    // A second key in the same bucket takes the free way; a third replaces
    // the shallower entry.
    let other = 42 + (1 << 20);
    store(&mut table, other, 200, -7, Bound::Lower, mv, 0);
    assert_eq!(probe(&table, other).unwrap().depth, 127);
    let third = 42 + (2 << 20);
    store(&mut table, third, -3, 0, Bound::Upper, mv, 0);
    assert_eq!(probe(&table, 42), None);
    assert_eq!(probe(&table, third).unwrap().depth, 0);
    assert!(probe(&table, other).is_some());
}

#[test]
fn placement_scores_match_the_formula() {
    assert_eq!(placement(PieceType::Knight, Color::White, 27, false), 32);
    assert_eq!(placement(PieceType::Knight, Color::White, 0, false), 32 - 60);
    assert_eq!(placement(PieceType::Pawn, Color::White, 52, false), 6 * 5 + 9 * 4 - 2);
    assert_eq!(placement(PieceType::Rook, Color::Black, 8, false), 24);
    assert_eq!(placement(PieceType::King, Color::White, 6, false), 24);
    assert_eq!(placement(PieceType::King, Color::White, 6, true), 36 - 5 * 12);
    assert_eq!(placement(PieceType::Empty, Color::Black, 6, true), 0);
}

#[test]
fn candidate_board_helpers() {
    assert_eq!(step(0, 1, 1), Some(9));
    assert_eq!(step(7, 0, 1), None);
    assert_eq!(step(63, -7, -7), Some(0));
    let m = Move {
        from: 1,
        to: 18,
        path_kind: 2,
        stop_index: 0,
        special: SpecialMove::Promotion,
        promo_piece: PieceType::Queen,
    };
    assert_eq!(candidate_pack(m), 1 | (18 << 6) | (2 << 12) | (3 << 18) | (5 << 20));
    let pawn = Piece {
        piece_type: PieceType::Pawn,
        color: Color::White,
    };
    assert_eq!(piece_score(pawn, 52), (100 + 18 + 36 - 2, 100 + 42 + 72));
    let king = Piece {
        piece_type: PieceType::King,
        color: Color::Black,
    };
    assert_eq!(piece_score(king, 60), (0, 40 - 3 * 12));
}

#[test]
fn networks_decode_fingerprint_and_accumulate() {
    assert!(Network::decode(&[0u8; 100]).is_err());
    assert_eq!(
        Model::decode(&[0u8; 100]).err().unwrap(),
        "invalid Cataclysm model shape"
    );
    assert!(Evaluator::decode(&[1u8; 3]).is_err());
    let mut bytes = vec![0u8; BYTES];
    // Weight row of a White pawn on a1 seen by White: feature 0, word 0..32.
    bytes[0] = 0x34;
    bytes[1] = 0x12;
    bytes[2] = 0xff;
    bytes[3] = 0xff;
    // Biases start at word 24576; outputs at 24608.
    bytes[2 * 24576] = 10;
    bytes[2 * 24608] = 0x00;
    bytes[2 * 24608 + 1] = 0x10;
    let net = Network::decode(&bytes).unwrap();
    assert_eq!(net.fingerprint, fnv(&bytes));
    let model = Model::decode(&bytes).unwrap();
    assert_eq!(model.fingerprint(), fnv(&bytes));
    assert!(Evaluator::decode(&bytes).is_ok());
    let start = Accumulator::new(&net);
    assert_eq!(start.hidden[0][0], 10);
    assert_eq!(start.hidden[1][1], 0);
    let pawn = Piece {
        piece_type: PieceType::Pawn,
        color: Color::White,
    };
    let mut acc = start;
    acc.update(pawn, 0, 1, &net);
    assert_eq!(acc.hidden[0][0], 10 + 0x1234);
    assert_eq!(acc.hidden[0][1], -1);
    // Black sees the piece as its opponent's, mirrored: feature 6*64 + 56.
    assert_eq!(acc.hidden[1][0], 10);
    // Clamped to 256 against 10, times 4096, scaled down by 4096.
    assert_eq!(acc.white_residual(&net), 246);
    acc.update(pawn, 0, -1, &net);
    assert_eq!(acc, start);
    let mut cand = push_chess::candidates::cataclysm::network::Network::decode(&bytes).unwrap();
    assert_eq!(cand.fingerprint, fnv(&bytes));
    let cstart = push_chess::candidates::cataclysm::network::Accumulator::new(&cand);
    let mut c = cstart;
    c.update(pawn, 0, 1, &cand);
    assert_eq!(c.hidden, acc_after(&net, pawn));
    assert_eq!(c.white_residual(&cand), 246);
    c.update(pawn, 0, -1, &cand);
    assert_eq!(c, cstart);
    cand.fingerprint = 0;
    assert_eq!(cand.fingerprint, 0);
}

fn acc_after(net: &Network, pawn: Piece) -> [[i32; 32]; 2] {
    let mut a = Accumulator::new(net);
    a.update(pawn, 0, 1, net);
    a.hidden
}

#[test]
fn table_sizes_and_analysis_budgets() {
    assert_eq!(HashSize::try_from(8).unwrap().bytes(), 8 << 20);
    assert_eq!(HashSize::from_mib(32).unwrap().bytes(), 32 << 20);
    assert_eq!(
        HashSize::try_from(12).err(),
        Some("hashMiB must be 4, 8, 16, or 32")
    );
    let budget = AnalysisOptions::default().budget().unwrap();
    assert_eq!(budget.max_time_us, 250_000);
    assert_eq!(budget.max_nodes, 100_000);
    assert_eq!(budget.max_depth, 32);
    let refused = AnalysisOptions {
        time_ms: 0,
        max_nodes: 0,
        max_depth: 4,
    };
    assert!(refused.budget().is_err());
    let deep = AnalysisOptions {
        max_depth: 33,
        ..AnalysisOptions::default()
    };
    assert!(deep.budget().is_err());
}

#[test]
fn move_ids_distinguish_moves() {
    let a = Move {
        from: 8,
        to: 16,
        ..Move::default()
    };
    let b = Move {
        stop_index: 1,
        ..a
    };
    assert_ne!(a.id(), b.id());
    assert_eq!(a.id(), 8 | (16 << 6));
}
