use push_chess::selfplay::considered_visits;

#[test]
fn considered_visits_share_the_simulations_over_halving_rounds() {
    assert_eq!(considered_visits(4, 8), [0, 0, 0, 0, 1, 1, 2, 2]);
    assert_eq!(considered_visits(1, 5), [0, 1, 2, 3, 4]);
    assert_eq!(considered_visits(3, 4), [0, 0, 0, 1]);
    assert_eq!(considered_visits(2, 6), [0, 0, 1, 1, 2, 2]);
}

use push_chess::game::Outcome;
use push_chess::selfplay::{Cursor, State};

fn play_squares(state: &mut State, from: u8, to: u8) {
    let id = state
        .legal_moves()
        .iter()
        .find(|m| m.from == from && m.to == to)
        .unwrap()
        .id();
    state.play(id).unwrap();
}

#[test]
fn detached_prefix_preserves_history_and_local_undo() {
    let mut state = State::from_fen("7k/8/8/8/8/8/8/K7 w - - 0 1").unwrap();
    for (from, to) in [(0, 1), (63, 62), (1, 0), (62, 63)] {
        play_squares(&mut state, from, to);
    }
    let mut cursor = Cursor::from_state(&state);
    assert!(cursor.pos.undo_stack.is_empty());
    assert_eq!(cursor.repetitions(), 1);
    let id = state.prepared()[0].mv().id();
    state.prepared()[0].apply(&mut cursor.pos);
    state.play(id).unwrap();
    let expected = state
        .position()
        .undo_stack
        .iter()
        .filter(|u| u.zobrist == state.position().zobrist)
        .take(2)
        .count();
    assert_eq!(cursor.repetitions(), expected);
    cursor.pos.unmake_move();
    assert_eq!(cursor.repetitions(), 1);
}

#[test]
fn a_state_plays_offered_moves_only_and_ends_on_repetition() {
    let mut state = State::from_fen("7k/8/8/8/8/8/8/K7 w - - 0 1").unwrap();
    assert_eq!(state.legal_moves().len(), 3);
    let ids: Vec<u32> = state.legal_moves().iter().map(|m| m.id()).collect();
    let mut sorted = ids.clone();
    sorted.sort();
    assert_eq!(ids, sorted);
    let before = state.position().to_fen();
    assert_eq!(state.play(u32::MAX), Err("move ID is not legal in this position"));
    assert_eq!(state.position().to_fen(), before);
    assert_eq!(*state.outcome(), Outcome::Playing);
    for _ in 0..2 {
        for (from, to) in [(0, 1), (63, 62), (1, 0), (62, 63)] {
            play_squares(&mut state, from, to);
        }
    }
    assert_eq!(*state.outcome(), Outcome::Repetition);
    assert!(state.legal_moves().is_empty());
    assert!(State::from_fen(&state.position().to_fen()).is_ok());
}

#[test]
fn a_state_refuses_a_bad_fen_and_exhausted_counters() {
    assert!(State::from_fen("not a fen").is_err());
    assert_eq!(
        State::from_fen("7k/8/8/8/8/8/8/K7 w - - 0 65534").err(),
        Some("Invalid FEN move counters".to_string())
    );
    let mate = State::from_fen("7k/6Q1/5K2/8/8/8/8/8 b - - 0 1").unwrap();
    assert!(matches!(mate.outcome(), Outcome::Checkmate { .. }));
    assert!(mate.legal_moves().is_empty());
}

#[test]
fn search_options_default_to_no_effects_and_a_bounded_tree() {
    let o = push_chess::selfplay::SearchOptions::default();
    assert!(!o.effects);
    assert_eq!(o.max_nodes_per_tree, 16_384);
    let m = push_chess::selfplay::SearchMetrics::default();
    assert_eq!((m.nodes, m.edges, m.arena_bytes, m.neural_rounds), (0, 0, 0, 0));
}
