use push_chess::engine::shared::{SearchLimits, pick_best};
use push_chess::engines::astra::{Entry, MATE, from_table, to_table};
use push_chess::candidates::cataclysm::{decode as candidate_decode, encode as candidate_encode};
use push_chess::engines::cataclysm::{decode, encode};
use push_chess::rules::types::SearchBudget;

#[test]
fn node_limit_is_exact_and_stop_is_sticky() {
    let mut limit = SearchLimits::default();
    limit.begin(
        &SearchBudget {
            max_nodes: 2,
            ..SearchBudget::default()
        },
        94,
    );
    assert!(!limit.tick(1));
    assert!(!limit.tick(2));
    assert!(limit.tick(3));
    assert_eq!(limit.nodes, 2);
    assert_eq!(limit.seldepth, 2);
    assert!(limit.tick(0));
}

#[test]
fn tie_policy_is_preserved() {
    let mut first = [(4, 0), (4, 1)];
    let mut last = first;
    pick_best::<_, false>(&mut first, 0, |x| x.0);
    pick_best::<_, true>(&mut last, 0, |x| x.0);
    assert_eq!(first[0].1, 0);
    assert_eq!(last[0].1, 1);
}

#[test]
fn mate_encoding_is_root_independent() {
    for ply in 0..100 {
        for value in [-29_999, -100, 0, 100, 29_999] {
            assert_eq!(candidate_decode(candidate_encode(value, ply), ply), value);
        }
    }
}

#[test]
fn mod_mate_encoding_is_root_independent() {
    for ply in 0..100 {
        for value in [-29_999, -100, 0, 100, 29_999] {
            assert_eq!(decode(encode(value, ply), ply), value);
        }
    }
}

#[test]
fn mate_scores_round_trip_at_different_root_distances() {
    assert_eq!(std::mem::size_of::<Entry>(), 16);
    assert_eq!(from_table(to_table(MATE - 8, 3), 5), MATE - 10);
    assert_eq!(from_table(to_table(-MATE + 8, 3), 5), -MATE + 10);
    assert_eq!(from_table(to_table(125, 3), 7), 125);
}

#[test]
fn a_run_of_ticks_stops_at_the_node_limit_and_stays_stopped() {
    let mut limit = SearchLimits::default();
    let budget = SearchBudget { max_time_us: 0, max_nodes: 3, max_depth: 0, seed: 0 };
    limit.begin(&budget, 100);
    assert!(!limit.tick(1));
    assert!(!limit.tick(4));
    assert!(!limit.tick(2));
    assert_eq!((limit.nodes, limit.seldepth), (3, 4));
    assert!(limit.tick(5));
    assert!(limit.tick(6));
    assert_eq!((limit.nodes, limit.seldepth, limit.stopped), (3, 4, true));
}
