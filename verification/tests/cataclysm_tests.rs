use push_chess::candidates::cataclysm::board::Board;
use push_chess::candidates::cataclysm::engine::{Cataclysm, INF};
use push_chess::candidates::cataclysm::network::Network;
use push_chess::candidates::cataclysm::oracle::verify_rules;
use push_chess::engines::cataclysm::network::BYTES;
use push_chess::engines::cataclysm::{MATE, WIN};
use push_chess::rules::fen::start_position;
use push_chess::rules::movegen::generate_legal_moves;
use push_chess::rules::position::Position;
use push_chess::rules::types::{Color, SearchBudget};

/// Half the product of the logarithms of depth and move count.
fn reduce(depth: i32, legal: i32) -> i32 {
    ((depth as f64).ln() * (legal as f64).ln() / 2.0) as i32
}

fn zero_network() -> Network {
    Network::decode(&vec![0u8; BYTES]).unwrap()
}

fn position(fen: &str) -> Position {
    let mut p = Position::default();
    p.set_from_fen(fen);
    p
}

#[test]
fn respects_nodes_and_restores_callers_position() {
    let net = zero_network();
    let mut engine = Cataclysm::new(&net, reduce);
    let mut pos = start_position();
    let before = pos.to_fen();
    let (mv, stats) = engine.choose_move(
        &mut pos,
        &SearchBudget {
            max_nodes: 2000,
            ..SearchBudget::default()
        },
    );
    let mut legal = Vec::new();
    generate_legal_moves(&mut pos, &mut legal);
    assert!(legal.contains(&mv));
    assert!(stats.nodes <= 2000);
    assert_eq!(pos.to_fen(), before);
    assert!(pos.undo_stack.is_empty());
}

#[test]
fn embedded_model_is_shared_and_search_is_deterministic() {
    assert!(Network::decode(&[0; 10]).is_err());
    let net = zero_network();
    let mut embedded = Cataclysm::new(&net, reduce);
    let mut repeated = Cataclysm::new(&net, reduce);
    assert!(std::ptr::eq(embedded.model(), repeated.model()));
    let budget = SearchBudget {
        max_nodes: 5000,
        ..SearchBudget::default()
    };
    let mut pos = start_position();
    let (a, sa) = embedded.choose_move(&mut pos, &budget);
    let (b, sb) = repeated.choose_move(&mut pos, &budget);
    assert_eq!(a, b);
    assert_eq!(sa.eval_cp, sb.eval_cp);
    assert_eq!(sa.nodes, sb.nodes);
}

#[test]
fn siege_proves_mate_and_search_handles_quiet_evasions_and_stalemate() {
    let net = zero_network();
    let mut engine = Cataclysm::new(&net, reduce);
    let mut pos = position("7k/5K2/6Q1/8/8/8/8/8 w - - 0 1");
    let (mv, stats) = engine.choose_move(
        &mut pos,
        &SearchBudget {
            max_depth: 2,
            ..SearchBudget::default()
        },
    );
    assert!(stats.eval_cp >= WIN);
    pos.make_move(&mv);
    let mut legal = Vec::new();
    generate_legal_moves(&mut pos, &mut legal);
    assert!(legal.is_empty() && pos.in_check());
    let pos = position("k3r3/8/8/8/8/8/8/4K3 w - - 0 1");
    let mut board = Board::with_model(&pos, &net);
    assert!(engine.qsearch(&mut board, -INF, INF, 0, 0) > -WIN);
    let pos = position("7k/5K2/6Q1/8/8/8/8/8 b - - 0 1");
    let mut board = Board::with_model(&pos, &net);
    assert_eq!(engine.qsearch(&mut board, -INF, INF, 0, 0), 0);
    assert_eq!(engine.qsearch(&mut board, -2000, -1999, 0, 0), 0);
}

#[test]
fn mate_precedes_fifty_move_draw_but_checked_legal_positions_draw() {
    let net = zero_network();
    let mut engine = Cataclysm::new(&net, reduce);
    let pos = position("7k/6Q1/5K2/8/8/8/8/8 b - - 100 1");
    assert_eq!(engine.qsearch(&mut Board::with_model(&pos, &net), -INF, INF, 0, 0), -MATE);
    let pos = position("k3r3/8/8/8/8/8/8/4K3 w - - 100 1");
    assert_eq!(engine.qsearch(&mut Board::with_model(&pos, &net), -INF, INF, 0, 0), 0);
}

#[test]
fn main_search_static_pruning_preserves_stalemate() {
    let net = zero_network();
    let mut engine = Cataclysm::new(&net, reduce);
    let pos = position("7k/5K2/6Q1/8/8/8/8/8 b - - 0 1");
    for depth in 1..=5 {
        assert_eq!(engine.search(&mut Board::with_model(&pos, &net), depth, -2501, -2500, 1, true), 0);
    }
}

#[test]
fn candidate_cataclysm_reports_its_proof_and_search() {
    let net = zero_network();
    let mut engine = Cataclysm::new(&net, reduce);
    assert_eq!(engine.name(), "Cataclysm 002");
    let hex = format!("{:016x}", net.fingerprint);
    let mut pos = position("7k/5K2/6Q1/8/8/8/8/8 w - - 0 1");
    let (_, stats) = engine.choose_move(
        &mut pos,
        &SearchBudget {
            max_depth: 2,
            ..SearchBudget::default()
        },
    );
    assert_eq!(stats.eval_cp, MATE - 1);
    assert_eq!(stats.pv.len(), 1);
    assert!(stats.diag_json.starts_with("{\"mate_proof_plies\":1,\"proof_nodes\":"));
    assert!(stats.diag_json.ends_with(&format!(",\"model\":\"{hex}\"}}")));
    engine.new_game(Color::White, 7);
    let mut pos = start_position();
    let (_, stats) = engine.choose_move(
        &mut pos,
        &SearchBudget {
            max_nodes: 3000,
            ..SearchBudget::default()
        },
    );
    assert!(stats.diag_json.starts_with("{\"qnodes\":"));
    assert!(stats.diag_json.ends_with(&format!(",\"prepared_moves\":true,\"model\":\"{hex}\"}}")));
    assert!(stats.depth_reached >= 1);
    assert!(!stats.pv.is_empty());
}

#[test]
fn candidate_cataclysm_without_moves_reports_mate_or_stalemate() {
    let net = zero_network();
    let mut engine = Cataclysm::new(&net, reduce);
    let mut pos = position("7k/6Q1/5K2/8/8/8/8/8 b - - 0 1");
    let (mv, stats) = engine.choose_move(&mut pos, &SearchBudget::default());
    assert_eq!(mv, Default::default());
    assert_eq!(stats.eval_cp, -MATE);
    let mut pos = position("7k/5K2/6Q1/8/8/8/8/8 b - - 0 1");
    let (mv, stats) = engine.choose_move(&mut pos, &SearchBudget::default());
    assert_eq!(mv, Default::default());
    assert_eq!(stats.eval_cp, 0);
}

#[test]
fn candidate_cataclysm_search_leaves_the_board_as_it_was() {
    let net = zero_network();
    let mut engine = Cataclysm::new(&net, reduce);
    for fen in [
        "r3k2r/8/8/3pP3/8/8/8/R3K2R w KQkq d6 0 1",
        "7k/8/4RB2/8/4N3/8/8/K7 w - - 0 1",
        "k3r3/8/8/8/8/8/8/4K3 w - - 0 1",
    ] {
        let pos = position(fen);
        let mut board = Board::with_model(&pos, &net);
        let before = board.pos.to_fen();
        let key = board.pos.zobrist;
        let v = engine.search(&mut board, 3, -INF, INF, 0, true);
        assert!(-INF < v && v < INF);
        assert_eq!(board.pos.to_fen(), before);
        assert_eq!(board.pos.zobrist, key);
        let q = engine.qsearch(&mut board, -INF, INF, 0, 0);
        assert!(q.abs() <= 30129);
        assert_eq!(board.pos.to_fen(), before);
    }
}

#[test]
fn transactions_match_the_rules_through_random_games() {
    let net = zero_network();
    for seed in 1u64..=4 {
        let mut pos = start_position();
        let mut random = seed;
        for _ in 0..80 {
            verify_rules(&pos, &net).unwrap();
            let mut legal = Vec::new();
            generate_legal_moves(&mut pos, &mut legal);
            if legal.is_empty() {
                break;
            }
            random = random.wrapping_mul(6364136223846793005).wrapping_add(1);
            pos.make_move(&legal[random as usize % legal.len()]);
        }
    }
}

#[test]
fn transactions_cover_special_moves_and_cascades() {
    let net = zero_network();
    for fen in [
        "7k/8/4RB2/8/4N3/8/8/K7 w - - 0 1",
        "7k/8/5BR1/8/4N3/8/8/K7 w - - 0 1",
        "7k/P7/R7/8/8/8/8/K7 w - - 0 1",
        "r3k2r/8/8/3pP3/8/8/8/R3K2R w KQkq d6 0 1",
    ] {
        let pos = position(fen);
        verify_rules(&pos, &net).unwrap();
    }
}

#[test]
fn verify_rules_counts_the_pseudo_legal_moves() {
    let net = zero_network();
    let pos = start_position();
    let mut core = Vec::new();
    push_chess::rules::movegen::generate_pseudo_legal_moves(&pos, &mut core);
    assert_eq!(verify_rules(&pos, &net), Ok(core.len()));
}
