//! The differential oracle: the candidate's transaction board checked
//! against the rules, move by move.
use vstd::prelude::*;
use crate::candidates::support::{push_text, push_uci, uci_text};
use crate::engines::support::lemma_swap_multiset;
use crate::rules::fen::{fen_text, string_from_chars, text_chars};
use crate::rules::movegen::{all_makeable, generate_pseudo_legal_moves, lemma_pseudo_legal_makeable, pseudo_legal};
use crate::rules::position::Position;
use crate::rules::types::{Color, Move};
use super::board::{Action, Board, Features, all_fit, pack};
use super::network::Network;

verus! {

/// Whether two texts hold the same characters.
fn same_text(a: &String, b: &String) -> (same: bool)
    ensures
        same == (a@ == b@),
{
    let x = text_chars(a.as_str());
    let y = text_chars(b.as_str());
    if x.len() != y.len() {
        return false;
    }
    let mut i: usize = 0;
    while i < x.len()
        invariant
            x@.len() == y@.len(),
            i <= x@.len(),
            x@ == a@,
            y@ == b@,
            forall|k: int| 0 <= k < i ==> x@[k] == y@[k],
        decreases x@.len() - i,
    {
        if x[i] != y[i] {
            return false;
        }
        i += 1;
    }
    assert(x@ =~= y@);
    true
}

/// `v` in ascending order.
fn sort_ids(v: &mut Vec<u32>)
    ensures
        final(v)@.len() == old(v)@.len(),
        final(v)@.to_multiset() == old(v)@.to_multiset(),
        forall|a: int, b: int| 0 <= a < b < final(v)@.len() ==> final(v)@[a] <= final(v)@[b],
{
    let n = v.len();
    let mut i: usize = 1;
    while i < n
        invariant
            v@.len() == n,
            v@.to_multiset() == old(v)@.to_multiset(),
            n > 0 ==> 1 <= i <= n,
            forall|a: int, b: int| 0 <= a < b < i && b < n ==> v@[a] <= v@[b],
        decreases n - i,
    {
        let mut j = i;
        while j > 0 && v[j - 1] > v[j]
            invariant
                v@.len() == n,
                j <= i < n,
                v@.to_multiset() == old(v)@.to_multiset(),
                forall|a: int, b: int| 0 <= a < b <= i && b != j && a != j ==> v@[a] <= v@[b],
                forall|a: int| j < a <= i ==> v@[j as int] <= #[trigger] v@[a],
            decreases j,
        {
            let ghost before = v@;
            let lower = v[j - 1];
            let upper = v[j];
            v.set(j - 1, upper);
            v.set(j, lower);
            proof {
                lemma_swap_multiset(before, j as int - 1, j as int);
                assert(v@ == before.update(j as int - 1, before[j as int]).update(j as int, before[j as int - 1]));
            }
            j -= 1;
        }
        i += 1;
    }
}

/// Whether two id lists are equal item by item.
fn same_ids(a: &Vec<u32>, b: &Vec<u32>) -> (same: bool)
    ensures
        same == (a@ == b@),
{
    if a.len() != b.len() {
        return false;
    }
    let mut i: usize = 0;
    while i < a.len()
        invariant
            a@.len() == b@.len(),
            i <= a@.len(),
            forall|k: int| 0 <= k < i ==> a@[k] == b@[k],
        decreases a@.len() - i,
    {
        if a[i] != b[i] {
            return false;
        }
        i += 1;
    }
    assert(a@ =~= b@);
    true
}

/// Two sets of features agree in every field.
pub open spec fn features_match(a: Features, b: Features) -> bool {
    &&& forall|c: int, t: int| 0 <= c < 2 && 0 <= t < 7 ==> #[trigger] a.men[c][t] == b.men[c][t]
    &&& forall|c: int|
        0 <= c < 2 ==> #[trigger] a.occupied[c] == b.occupied[c] && a.mg[c] == b.mg[c] && a.eg[c] == b.eg[c]
            && a.material[c] == b.material[c]
    &&& forall|c: int, k: int| 0 <= c < 2 && 0 <= k < 32 ==> #[trigger] a.net.hidden[c][k] == b.net.hidden[c][k]
    &&& a.phase == b.phase
}

/// Whether two sets of features are equal, field by field.
fn same_features(a: &Features, b: &Features) -> (same: bool)
    ensures
        same == features_match(*a, *b),
{
    let mut c: usize = 0;
    while c < 2
        invariant
            c <= 2,
            forall|c2: int, t: int| 0 <= c2 < c && 0 <= t < 7 ==> #[trigger] a.men[c2][t] == b.men[c2][t],
            forall|c2: int|
                0 <= c2 < c ==> #[trigger] a.occupied[c2] == b.occupied[c2] && a.mg[c2] == b.mg[c2] && a.eg[c2]
                    == b.eg[c2] && a.material[c2] == b.material[c2],
            forall|c2: int, k: int| 0 <= c2 < c && 0 <= k < 32 ==> #[trigger] a.net.hidden[c2][k] == b.net.hidden[c2][k],
        decreases 2 - c,
    {
        let mut t: usize = 0;
        while t < 7
            invariant
                c < 2,
                t <= 7,
                forall|c2: int, t: int| 0 <= c2 < c && 0 <= t < 7 ==> #[trigger] a.men[c2][t] == b.men[c2][t],
                forall|c2: int|
                    0 <= c2 < c ==> #[trigger] a.occupied[c2] == b.occupied[c2] && a.mg[c2] == b.mg[c2] && a.eg[c2]
                        == b.eg[c2] && a.material[c2] == b.material[c2],
                forall|c2: int, k: int| 0 <= c2 < c && 0 <= k < 32 ==> #[trigger] a.net.hidden[c2][k] == b.net.hidden[c2][k],
                forall|t2: int| 0 <= t2 < t ==> #[trigger] a.men[c as int][t2] == b.men[c as int][t2],
            decreases 7 - t,
        {
            if a.men[c][t] != b.men[c][t] {
                return false;
            }
            t += 1;
        }
        if a.occupied[c] != b.occupied[c] || a.mg[c] != b.mg[c] || a.eg[c] != b.eg[c] || a.material[c]
            != b.material[c] {
            assert(!(a.occupied[c as int] == b.occupied[c as int] && a.mg[c as int] == b.mg[c as int] && a.eg[c as int]
                == b.eg[c as int] && a.material[c as int] == b.material[c as int]));
            return false;
        }
        let mut k: usize = 0;
        while k < 32
            invariant
                c < 2,
                k <= 32,
                forall|c2: int, t: int| 0 <= c2 < c && 0 <= t < 7 ==> #[trigger] a.men[c2][t] == b.men[c2][t],
                forall|c2: int|
                    0 <= c2 < c ==> #[trigger] a.occupied[c2] == b.occupied[c2] && a.mg[c2] == b.mg[c2] && a.eg[c2]
                        == b.eg[c2] && a.material[c2] == b.material[c2],
                forall|c2: int, k: int| 0 <= c2 < c && 0 <= k < 32 ==> #[trigger] a.net.hidden[c2][k] == b.net.hidden[c2][k],
                forall|t2: int| 0 <= t2 < 7 ==> #[trigger] a.men[c as int][t2] == b.men[c as int][t2],
                a.occupied[c as int] == b.occupied[c as int] && a.mg[c as int] == b.mg[c as int] && a.eg[c as int]
                    == b.eg[c as int] && a.material[c as int] == b.material[c as int],
                forall|k2: int| 0 <= k2 < k ==> #[trigger] a.net.hidden[c as int][k2] == b.net.hidden[c as int][k2],
            decreases 32 - k,
        {
            if a.net.hidden[c][k] != b.net.hidden[c][k] {
                return false;
            }
            k += 1;
        }
        assert forall|c2: int| 0 <= c2 < c + 1 implies #[trigger] a.occupied[c2] == b.occupied[c2] && a.mg[c2]
            == b.mg[c2] && a.eg[c2] == b.eg[c2] && a.material[c2] == b.material[c2] by {
            if c2 == c as int {
                assert(a.occupied[c as int] == b.occupied[c as int]);
            }
        }
        c += 1;
    }
    a.phase == b.phase
}

/// A message: `text`, then the move in coordinate notation when there is
/// one, then the position's FEN when there is one.
fn message(text: &str, m: Option<Move>, pos: Option<&Position>) -> (r: String)
    requires
        m matches Some(mv) ==> mv.from < 64 && mv.to < 64,
    ensures
        r@ == text@ + move_part(m) + fen_part(pos),
{
    let mut out: Vec<char> = Vec::new();
    push_text(&mut out, text);
    match m {
        Some(m) => {
            out.push(' ');
            push_uci(&mut out, m);
            out.push(':');
            out.push(' ');
        },
        None => {},
    }
    assert(out@ =~= text@ + move_part(m));
    let ghost head = out@;
    match pos {
        Some(p) => {
            let fen = p.to_fen();
            push_text(&mut out, fen.as_str());
        },
        None => {},
    }
    assert(out@ =~= head + fen_part(pos));
    string_from_chars(&out)
}

/// The move in coordinate notation after a space and before a colon, when
/// there is one.
pub open spec fn move_part(m: Option<Move>) -> Seq<char> {
    match m {
        Some(mv) => seq![' '] + uci_text(mv) + seq![':', ' '],
        None => Seq::empty(),
    }
}

/// The FEN of the position, when there is one.
pub open spec fn fen_part(pos: Option<&Position>) -> Seq<char> {
    match pos {
        Some(p) => fen_text(p),
        None => Seq::empty(),
    }
}

/// The position's squares, side, rights, en-passant square, clocks, kings
/// and hash, without its history.
fn detached(pos: &Position) -> (p: Position)
    ensures
        p.board == pos.board,
        p.side_to_move == pos.side_to_move,
        p.castling_rights == pos.castling_rights,
        p.ep_square == pos.ep_square,
        p.halfmove_clock == pos.halfmove_clock,
        p.fullmove_number == pos.fullmove_number,
        p.king_sq == pos.king_sq,
        p.zobrist == pos.zobrist,
{
    Position {
        board: pos.board,
        side_to_move: pos.side_to_move,
        castling_rights: pos.castling_rights,
        ep_square: pos.ep_square,
        halfmove_clock: pos.halfmove_clock,
        fullmove_number: pos.fullmove_number,
        king_sq: pos.king_sq,
        zobrist: pos.zobrist,
        undo_stack: Vec::new(),
    }
}

/// Check the transaction board against the rules on `pos`: the same
/// pseudo-legal moves, and for each of them the same position, hash, kings
/// and checks as the rules' move gives, features equal to those of a board
/// built afresh, and the position back after the move is taken back. The
/// count of moves, or the first mismatch.
pub fn verify_rules(pos: &Position, model: &Network) -> (r: Result<usize, String>)
    requires
        model.sound(),
        pos.castling_rights < 16,
        pos.halfmove_clock + 1 < u16::MAX,
        pos.fullmove_number + 1 < u16::MAX,
    ensures
        r matches Ok(n) ==> n == pseudo_legal(pos).len(),
{
    let mut board = Board::with_model(pos, model);
    let mut actions: Vec<Action> = Vec::new();
    board.generate(&mut actions);
    let mut core: Vec<Move> = Vec::new();
    generate_pseudo_legal_moves(pos, &mut core);
    assert(core@ =~= pseudo_legal(pos));
    proof {
        lemma_pseudo_legal_makeable(pos);
    }
    let mut ours: Vec<u32> = Vec::new();
    let mut i: usize = 0;
    while i < actions.len()
        invariant
            ours@.len() == i,
            i <= actions@.len(),
        decreases actions@.len() - i,
    {
        ours.push(pack(actions[i].mv));
        i += 1;
    }
    sort_ids(&mut ours);
    let mut theirs: Vec<u32> = Vec::new();
    let mut i: usize = 0;
    while i < core.len()
        invariant
            theirs@.len() == i,
            i <= core@.len(),
        decreases core@.len() - i,
    {
        theirs.push(pack(core[i]));
        i += 1;
    }
    sort_ids(&mut theirs);
    if !same_ids(&ours, &theirs) {
        return Err(message("move set mismatch:", None, Some(pos)));
    }
    let ghost start = board;
    let n = actions.len();
    let mut i: usize = 0;
    while i < n
        invariant
            n == actions@.len(),
            n == core@.len(),
            core@ == pseudo_legal(pos),
            all_makeable(pos.board@, core@),
            all_fit(actions@),
            i <= n,
            model.sound(),
            board.wf(),
            board.model == model,
            board.same(&start),
            start.pos.board == pos.board,
            start.pos.side_to_move == pos.side_to_move,
            start.pos.castling_rights == pos.castling_rights,
            start.pos.ep_square == pos.ep_square,
            start.pos.halfmove_clock == pos.halfmove_clock,
            start.pos.fullmove_number == pos.fullmove_number,
            pos.castling_rights < 16,
            pos.halfmove_clock + 1 < u16::MAX,
            pos.fullmove_number + 1 < u16::MAX,
        decreases n - i,
    {
        let action = &actions[i];
        assert(action.fits());
        let id = pack(action.mv);
        let mut k: usize = 0;
        let mut found = false;
        while k < n
            invariant_except_break
                !found,
            invariant
                n == core@.len(),
                k <= n,
                found ==> k < n,
            decreases n - k,
        {
            if pack(core[k]) == id {
                found = true;
                break;
            }
            k += 1;
        }
        if !found {
            return Err(message("move set mismatch:", None, Some(pos)));
        }
        let m = core[k];
        assert(crate::rules::movegen::makeable(pos.board@, core@[k as int]));
        let mut reference = detached(pos);
        reference.make_move(&m);
        let undo = board.make(action);
        let fen = board.pos.to_fen();
        let expected = reference.to_fen();
        if !same_text(&fen, &expected) || board.pos.zobrist != reference.zobrist || board.pos.king_sq[0]
            != reference.king_sq[0] || board.pos.king_sq[1] != reference.king_sq[1] {
            return Err(message("transaction mismatch", Some(action.mv), Some(pos)));
        }
        if board.checked(Color::White) != reference.in_check_color(Color::White) || board.checked(Color::Black)
            != reference.in_check_color(Color::Black) {
            return Err(message("check mismatch", Some(action.mv), Some(pos)));
        }
        let rebuilt = Board::with_model(&reference, model);
        if !same_features(&board.f, &rebuilt.f) {
            return Err(message("incremental feature mismatch", None, None));
        }
        board.unmake(undo);
        let back = board.pos.to_fen();
        let original = pos.to_fen();
        if !same_text(&back, &original) || board.pos.zobrist != pos.zobrist {
            return Err(message("undo mismatch", None, None));
        }
        i += 1;
    }
    Ok(n)
}

} // verus!
