use push_chess::engines::support::{ScoredMove, ScoredMoves};
use push_chess::rules::types::Move;

#[test]
fn moves_keep_scores_and_spill_safely() {
    let mut moves = ScoredMoves::new();
    for i in 0..600usize {
        moves.push(Move {
            from: (i % 64) as u8,
            ..Move::default()
        });
        let mv = moves.get(i).mv;
        moves.set(i, ScoredMove { mv, score: i as i32 });
    }
    assert_eq!(moves.len(), 600);
    moves.selection_sort();
    for i in 0..600usize {
        let entry = moves.get(i);
        assert_eq!(entry.score, (599 - i) as i32);
        assert_eq!(entry.mv.from, ((599 - i) % 64) as u8);
    }
}

#[test]
fn ties_select_the_first_maximum() {
    let mut moves = ScoredMoves::new();
    for from in 0..4u8 {
        moves.push(Move {
            from,
            ..Move::default()
        });
    }
    for i in [1usize, 2] {
        let mv = moves.get(i).mv;
        moves.set(i, ScoredMove { mv, score: 10 });
    }
    moves.pick_best(0);
    assert_eq!(moves.get(0).mv.from, 1);
}
