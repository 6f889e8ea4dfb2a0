use push_chess::game::{Outcome, adjudicate};
use push_chess::rules::movegen::generate_legal_moves;
use push_chess::rules::position::Position;
use push_chess::rules::types::Color;

#[test]
fn mate_precedes_fifty_move_rule() {
    let mut p = Position::try_from_fen("7k/6Q1/5K2/8/8/8/8/8 b - - 100 1").unwrap();
    let mut moves = Vec::new();
    generate_legal_moves(&mut p, &mut moves);
    assert_eq!(
        adjudicate(&p, &moves),
        Outcome::Checkmate {
            winner: Color::White
        }
    );
}

#[test]
fn nonterminal_and_stalemate_are_distinct() {
    let mut p = Position::try_from_fen("7k/5K2/6Q1/8/8/8/8/8 b - - 0 1").unwrap();
    let mut moves = Vec::new();
    generate_legal_moves(&mut p, &mut moves);
    assert_eq!(adjudicate(&p, &moves), Outcome::Stalemate);
}
