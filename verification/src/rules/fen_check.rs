//! The validated reading of a FEN from an untrusted source.
use vstd::prelude::*;
use vstd::string::StringSliceAdditionalSpecFns;
use super::fen::{
    castle_bits, castle_flag, cursor_after, digit_value, fen_side, field, is_skip_digit, placement_after,
    placement_fits, reads_fen, spec_ep_square, spec_is_digit, split_whitespace, step_fits, text_chars, word_views,
    words, decimal_value,
};
use super::position::{Position, attacked};
use super::types::{
    CASTLE_BK, CASTLE_BQ, CASTLE_WK, CASTLE_WQ, Color, Piece, PieceType, Square, opponent, spec_make_square,
    spec_opponent,
};

verus! {

/// Why a FEN is refused, in the order the checks are made.
#[derive(Clone, Copy, PartialEq, Eq, Debug, Structural)]
pub enum FenFault {
    TooLongOrNotAscii,
    FieldCount,
    RankCount,
    InvalidPiece,
    RankWidth,
    KingsOrPieces,
    SideToMove,
    CastlingChar,
    CastlingDuplicate,
    EnPassantField,
    Counters,
    CastlingPlacement,
    EnPassantPlacement,
    OpponentInCheck,
}

pub open spec fn is_piece_letter(c: char) -> bool {
    ||| c == 'p' || c == 'n' || c == 'b' || c == 'r' || c == 'q' || c == 'k'
    ||| c == 'P' || c == 'N' || c == 'B' || c == 'R' || c == 'Q' || c == 'K'
}

/// The number of `/` among the first `n` characters.
pub open spec fn slashes(s: Seq<char>, n: nat) -> int
    decreases n,
{
    if n == 0 || n > s.len() {
        0
    } else {
        slashes(s, (n - 1) as nat) + if s[n - 1] == '/' {
            1int
        } else {
            0int
        }
    }
}

/// The width of the current rank and the first fault after the first `n`
/// characters of a placement field, read rank by rank.
pub open spec fn rank_scan(s: Seq<char>, n: nat) -> (int, Option<FenFault>)
    decreases n,
{
    if n == 0 || n > s.len() {
        (0, None)
    } else {
        let prev = rank_scan(s, (n - 1) as nat);
        let c = s[n - 1];
        if prev.1 is Some {
            prev
        } else if c == '/' {
            if prev.0 != 8 {
                (prev.0, Some(FenFault::RankWidth))
            } else {
                (0, None)
            }
        } else if is_skip_digit(c) {
            (prev.0 + digit_value(c), None)
        } else if is_piece_letter(c) {
            (prev.0 + 1, None)
        } else {
            (prev.0, Some(FenFault::InvalidPiece))
        }
    }
}

/// The first fault of a placement field: not eight ranks; a character that is
/// neither a digit from 1 to 8 nor a piece letter; a rank not eight squares wide.
pub open spec fn placement_fault(s: Seq<char>) -> Option<FenFault> {
    let scan = rank_scan(s, s.len());
    if slashes(s, s.len()) != 7 {
        Some(FenFault::RankCount)
    } else if scan.1 is Some {
        scan.1
    } else if scan.0 != 8 {
        Some(FenFault::RankWidth)
    } else {
        None
    }
}

/// White pieces, Black pieces, White kings and Black kings among the first
/// `n` characters.
pub open spec fn tally(s: Seq<char>, n: nat) -> (int, int, int, int)
    decreases n,
{
    if n == 0 || n > s.len() {
        (0, 0, 0, 0)
    } else {
        let t = tally(s, (n - 1) as nat);
        let c = s[n - 1];
        let king = c == 'k' || c == 'K';
        if !is_piece_letter(c) {
            t
        } else if 97 <= c as u32 <= 122 {
            (t.0, t.1 + 1, t.2, t.3 + if king {
                1int
            } else {
                0int
            })
        } else {
            (t.0 + 1, t.1, t.2 + if king {
                1int
            } else {
                0int
            }, t.3)
        }
    }
}

/// Exactly one king per side and at most sixteen pieces per side.
pub open spec fn roster_ok(s: Seq<char>) -> bool {
    let t = tally(s, s.len());
    t.2 == 1 && t.3 == 1 && t.0 <= 16 && t.1 <= 16
}

proof fn lemma_rank_scan_cursor(s: Seq<char>, n: nat)
    requires
        n <= s.len(),
        rank_scan(s, n).1 is None,
    ensures
        cursor_after(s, n) == (7 - slashes(s, n), rank_scan(s, n).0),
        rank_scan(s, n).0 >= 0,
        forall|i: nat| i <= n ==> (#[trigger] rank_scan(s, i)).1 is None,
    decreases n,
{
    if n > 0 {
        let prev = rank_scan(s, (n - 1) as nat);
        assert(prev.1 is None);
        lemma_rank_scan_cursor(s, (n - 1) as nat);
    }
}

proof fn lemma_slashes_monotone(s: Seq<char>, i: nat, n: nat)
    requires
        i <= n <= s.len(),
    ensures
        slashes(s, i) <= slashes(s, n),
        slashes(s, i) >= 0,
    decreases n - i,
{
    if i < n {
        lemma_slashes_monotone(s, i, (n - 1) as nat);
    } else {
        lemma_slashes_nonneg(s, i);
    }
}

proof fn lemma_slashes_nonneg(s: Seq<char>, n: nat)
    ensures
        slashes(s, n) >= 0,
    decreases n,
{
    if n > 0 {
        lemma_slashes_nonneg(s, (n - 1) as nat);
    }
}

/// In a faultless field every rank's width only grows to exactly eight.
proof fn lemma_width_bounded(s: Seq<char>, n: nat)
    requires
        n <= s.len(),
        placement_fault(s) is None,
    ensures
        rank_scan(s, n).0 <= 8,
    decreases s.len() - n,
{
    lemma_rank_scan_cursor(s, s.len());
    if n < s.len() {
        lemma_width_bounded(s, n + 1);
        assert(rank_scan(s, n + 1).1 is None);
    }
}

/// A faultless placement field can be read: every piece lands on the board.
pub proof fn lemma_placement_fits(s: Seq<char>)
    requires
        placement_fault(s) is None,
    ensures
        placement_fits(s),
{
    lemma_rank_scan_cursor(s, s.len());
    assert forall|i: int| 0 <= i < s.len() implies step_fits(cursor_after(s, i as nat), #[trigger] s[i]) by {
        lemma_rank_scan_cursor(s, i as nat);
        lemma_rank_scan_cursor(s, (i + 1) as nat);
        lemma_width_bounded(s, i as nat);
        lemma_width_bounded(s, (i + 1) as nat);
        lemma_slashes_monotone(s, i as nat, s.len());
        lemma_slashes_monotone(s, (i + 1) as nat, s.len());
        let cur = cursor_after(s, i as nat);
        if s[i] != '/' && !is_skip_digit(s[i]) {
            assert(is_piece_letter(s[i]));
            assert(0 <= cur.0 <= 7);
            assert(0 <= cur.1 <= 7);
            assert(spec_make_square(cur.0, cur.1) == cur.0 * 8 + cur.1);
        }
    }
}

/// The castling rights seen and the first fault after the first `n`
/// characters of a castling field: a character other than `KQkq`, or a right
/// named twice.
pub open spec fn castle_scan(s: Seq<char>, n: nat) -> (u8, Option<FenFault>)
    decreases n,
{
    if n == 0 || n > s.len() {
        (0, None)
    } else {
        let prev = castle_scan(s, (n - 1) as nat);
        let bit = castle_flag(s[n - 1]);
        if prev.1 is Some {
            prev
        } else if bit == 0 {
            (prev.0, Some(FenFault::CastlingChar))
        } else if prev.0 & bit != 0 {
            (prev.0, Some(FenFault::CastlingDuplicate))
        } else {
            (prev.0 | bit, None)
        }
    }
}

pub open spec fn castling_field_fault(s: Seq<char>) -> Option<FenFault> {
    if s == seq!['-'] {
        None
    } else {
        castle_scan(s, s.len()).1
    }
}

/// `-`, or a file letter and the rank a double step passes for the side that
/// just moved: the sixth rank when White is to move, the third when Black is.
pub open spec fn ep_field_ok(s: Seq<char>, side: Seq<char>) -> bool {
    ||| s == seq!['-']
    ||| s.len() == 2 && 97 <= s[0] as u32 <= 104 && s[1] == if side == seq!['w'] {
        '6'
    } else {
        '3'
    }
}

/// Decimal digits only, with a value from `min` to `max`.
pub open spec fn counter_ok(s: Seq<char>, min: int, max: int) -> bool {
    &&& s.len() > 0
    &&& forall|i: int| 0 <= i < s.len() ==> spec_is_digit(#[trigger] s[i])
    &&& min <= decimal_value(s, s.len()) <= max
}

pub open spec fn holds(board: Seq<Piece>, sq: int, pt: PieceType, color: Color) -> bool {
    board[sq] == Piece { piece_type: pt, color }
}

/// Each castling right has its king and rook on their home squares.
pub open spec fn castle_homes_ok(board: Seq<Piece>, rights: u8) -> bool {
    &&& rights & CASTLE_WK != 0 ==> holds(board, 4, PieceType::King, Color::White) && holds(board, 7, PieceType::Rook, Color::White)
    &&& rights & CASTLE_WQ != 0 ==> holds(board, 4, PieceType::King, Color::White) && holds(board, 0, PieceType::Rook, Color::White)
    &&& rights & CASTLE_BK != 0 ==> holds(board, 60, PieceType::King, Color::Black) && holds(board, 63, PieceType::Rook, Color::Black)
    &&& rights & CASTLE_BQ != 0 ==> holds(board, 60, PieceType::King, Color::Black) && holds(board, 56, PieceType::Rook, Color::Black)
}

/// An en-passant square is empty and has the opposing pawn just past it.
pub open spec fn ep_target_ok(board: Seq<Piece>, ep: Square, side: Color) -> bool {
    ep < 64 ==> {
        let captured = if side == Color::White {
            ep - 8
        } else {
            ep + 8
        };
        0 <= captured < 64 && board[ep as int].spec_is_empty() && holds(board, captured, PieceType::Pawn, spec_opponent(side))
    }
}

/// The first check a FEN fails, or none: length and ASCII, six fields, the
/// placement, the kings and piece counts, the side to move, the castling
/// field, the en-passant field, the counters (halfmove clock 0 to 100,
/// move number 1 to 60000), then, on the position read, castling homes, the
/// en-passant target and the side that just moved not being in check.
pub open spec fn fen_fault(fen: &str) -> Option<FenFault> {
    let w = words(fen@);
    if fen.len() > 128 || !vstd::string::is_ascii(fen) {
        Some(FenFault::TooLongOrNotAscii)
    } else if w.len() != 6 {
        Some(FenFault::FieldCount)
    } else if placement_fault(w[0]) is Some {
        placement_fault(w[0])
    } else if !roster_ok(w[0]) {
        Some(FenFault::KingsOrPieces)
    } else if w[1] != seq!['w'] && w[1] != seq!['b'] {
        Some(FenFault::SideToMove)
    } else if castling_field_fault(w[2]) is Some {
        castling_field_fault(w[2])
    } else if !ep_field_ok(w[3], w[1]) {
        Some(FenFault::EnPassantField)
    } else if !counter_ok(w[4], 0, 100) || !counter_ok(w[5], 1, 60000) {
        Some(FenFault::Counters)
    } else {
        let placed = placement_after(w[0], w[0].len(), seq![64u8, 64u8]);
        let side = fen_side(w);
        if !castle_homes_ok(placed.0, castle_bits(w[2], w[2].len())) {
            Some(FenFault::CastlingPlacement)
        } else if !ep_target_ok(placed.0, spec_ep_square(w[3]), side) {
            Some(FenFault::EnPassantPlacement)
        } else if attacked(placed.0, placed.1[spec_opponent(side).spec_index()], side) {
            Some(FenFault::OpponentInCheck)
        } else {
            None
        }
    }
}

pub open spec fn fault_message(f: FenFault) -> &'static str {
    match f {
        FenFault::TooLongOrNotAscii => "FEN must be ASCII and at most 128 bytes",
        FenFault::FieldCount => "FEN requires six fields",
        FenFault::RankCount => "FEN requires eight ranks",
        FenFault::InvalidPiece => "FEN contains an invalid piece",
        FenFault::RankWidth => "Every FEN rank must contain eight squares",
        FenFault::KingsOrPieces => "Each side needs exactly one king and at most sixteen pieces",
        FenFault::SideToMove => "Invalid side to move",
        FenFault::CastlingChar => "Invalid castling rights",
        FenFault::CastlingDuplicate => "Duplicate castling right",
        FenFault::EnPassantField => "Invalid en-passant square",
        FenFault::Counters => "Invalid FEN move counters",
        FenFault::CastlingPlacement => "Castling rights require the king and rook on their home squares",
        FenFault::EnPassantPlacement => "En-passant requires an empty target and the opposing pawn",
        FenFault::OpponentInCheck => "The side that just moved cannot be in check",
    }
}

/// A refused FEN, with the reason.
#[derive(Debug, Clone, PartialEq, Eq)]
pub struct FenError(pub &'static str);

impl FenError {
    /// The error for a fault, with its message.
    pub fn of(f: FenFault) -> (e: FenError)
        ensures
            e.0 == fault_message(f),
    {
        match f {
            FenFault::TooLongOrNotAscii => FenError("FEN must be ASCII and at most 128 bytes"),
            FenFault::FieldCount => FenError("FEN requires six fields"),
            FenFault::RankCount => FenError("FEN requires eight ranks"),
            FenFault::InvalidPiece => FenError("FEN contains an invalid piece"),
            FenFault::RankWidth => FenError("Every FEN rank must contain eight squares"),
            FenFault::KingsOrPieces => FenError("Each side needs exactly one king and at most sixteen pieces"),
            FenFault::SideToMove => FenError("Invalid side to move"),
            FenFault::CastlingChar => FenError("Invalid castling rights"),
            FenFault::CastlingDuplicate => FenError("Duplicate castling right"),
            FenFault::EnPassantField => FenError("Invalid en-passant square"),
            FenFault::Counters => FenError("Invalid FEN move counters"),
            FenFault::CastlingPlacement => FenError("Castling rights require the king and rook on their home squares"),
            FenFault::EnPassantPlacement => FenError("En-passant requires an empty target and the opposing pawn"),
            FenFault::OpponentInCheck => FenError("The side that just moved cannot be in check"),
        }
    }

    /// The message, as `Display` would show it.
    pub fn message(&self) -> (m: &'static str)
        ensures
            m == self.0,
    {
        self.0
    }
}

fn is_piece_letter_exec(c: char) -> (b: bool)
    ensures
        b == is_piece_letter(c),
{
    c == 'p' || c == 'n' || c == 'b' || c == 'r' || c == 'q' || c == 'k' || c == 'P' || c == 'N' || c == 'B' || c
        == 'R' || c == 'Q' || c == 'K'
}

fn count_slashes(s: &Vec<char>) -> (n: usize)
    ensures
        n == slashes(s@, s@.len()),
{
    let mut n: usize = 0;
    let mut i: usize = 0;
    while i < s.len()
        invariant
            i <= s@.len(),
            n == slashes(s@, i as nat),
            n <= i,
        decreases s@.len() - i,
    {
        if s[i] == '/' {
            n += 1;
        }
        i += 1;
    }
    n
}

/// The first fault of a placement field, if any.
fn check_placement(s: &Vec<char>) -> (f: Option<FenFault>)
    ensures
        f == placement_fault(s@),
{
    if count_slashes(s) != 7 {
        return Some(FenFault::RankCount);
    }
    // The width of the current rank, held at 9 once it is past eight.
    let mut width: u32 = 0;
    let mut i: usize = 0;
    while i < s.len()
        invariant
            i <= s@.len(),
            slashes(s@, s@.len()) == 7,
            rank_scan(s@, i as nat).1 is None,
            rank_scan(s@, i as nat).0 >= 0,
            width == if rank_scan(s@, i as nat).0 > 8 {
                9
            } else {
                rank_scan(s@, i as nat).0
            },
        decreases s@.len() - i,
    {
        let c = s[i];
        let u = c as u32;
        if c == '/' {
            if width != 8 {
                proof {
                    lemma_rank_scan_stays_faulty(s@, (i + 1) as nat, s@.len());
                }
                return Some(FenFault::RankWidth);
            }
            width = 0;
        } else if 49 <= u && u <= 56 {
            width = if width + (u - 48) > 8 {
                9
            } else {
                width + (u - 48)
            };
        } else if is_piece_letter_exec(c) {
            width = if width + 1 > 8 {
                9
            } else {
                width + 1
            };
        } else {
            proof {
                lemma_rank_scan_stays_faulty(s@, (i + 1) as nat, s@.len());
            }
            return Some(FenFault::InvalidPiece);
        }
        i += 1;
    }
    if width != 8 {
        Some(FenFault::RankWidth)
    } else {
        None
    }
}

/// Once a fault is found it is the scan's result.
proof fn lemma_rank_scan_stays_faulty(s: Seq<char>, i: nat, n: nat)
    requires
        0 < i <= n <= s.len(),
        rank_scan(s, i).1 is Some,
    ensures
        rank_scan(s, n).1 == rank_scan(s, i).1,
    decreases n - i,
{
    if i < n {
        lemma_rank_scan_stays_faulty(s, i, (n - 1) as nat);
    }
}

/// Exactly one king per side and at most sixteen pieces per side.
fn check_roster(s: &Vec<char>) -> (ok: bool)
    ensures
        ok == roster_ok(s@),
{
    let mut t: (usize, usize, usize, usize) = (0, 0, 0, 0);
    let mut i: usize = 0;
    while i < s.len()
        invariant
            i <= s@.len(),
            t.0 <= i && t.1 <= i && t.2 <= i && t.3 <= i,
            tally(s@, i as nat) == (t.0 as int, t.1 as int, t.2 as int, t.3 as int),
        decreases s@.len() - i,
    {
        let c = s[i];
        if is_piece_letter_exec(c) {
            let king: usize = if c == 'k' || c == 'K' {
                1
            } else {
                0
            };
            if 97 <= c as u32 && c as u32 <= 122 {
                t = (t.0, t.1 + 1, t.2, t.3 + king);
            } else {
                t = (t.0 + 1, t.1, t.2 + king, t.3);
            }
        }
        i += 1;
    }
    t.2 == 1 && t.3 == 1 && t.0 <= 16 && t.1 <= 16
}

fn is_single(s: &Vec<char>, c: char) -> (b: bool)
    ensures
        b == (s@ == seq![c]),
{
    if s.len() == 1 && s[0] == c {
        assert(s@ =~= seq![c]);
        true
    } else {
        assert(seq![c].len() == 1 && seq![c][0] == c);
        false
    }
}

proof fn lemma_castle_scan_stays_faulty(s: Seq<char>, i: nat, n: nat)
    requires
        0 < i <= n <= s.len(),
        castle_scan(s, i).1 is Some,
    ensures
        castle_scan(s, n).1 == castle_scan(s, i).1,
    decreases n - i,
{
    if i < n {
        lemma_castle_scan_stays_faulty(s, i, (n - 1) as nat);
    }
}

/// The first fault of a castling field, if any.
fn check_castling_field(s: &Vec<char>) -> (f: Option<FenFault>)
    ensures
        f == castling_field_fault(s@),
{
    if is_single(s, '-') {
        return None;
    }
    let mut seen: u8 = 0;
    let mut i: usize = 0;
    while i < s.len()
        invariant
            i <= s@.len(),
            s@ != seq!['-'],
            castle_scan(s@, i as nat) == (seen, None::<FenFault>),
        decreases s@.len() - i,
    {
        let c = s[i];
        let bit: u8 = if c == 'K' {
            CASTLE_WK
        } else if c == 'Q' {
            CASTLE_WQ
        } else if c == 'k' {
            CASTLE_BK
        } else if c == 'q' {
            CASTLE_BQ
        } else {
            0
        };
        if bit == 0 {
            proof {
                lemma_castle_scan_stays_faulty(s@, (i + 1) as nat, s@.len());
            }
            return Some(FenFault::CastlingChar);
        }
        if seen & bit != 0 {
            proof {
                lemma_castle_scan_stays_faulty(s@, (i + 1) as nat, s@.len());
            }
            return Some(FenFault::CastlingDuplicate);
        }
        seen = seen | bit;
        i += 1;
    }
    None
}

fn check_ep_field(s: &Vec<char>, side: &Vec<char>) -> (ok: bool)
    ensures
        ok == ep_field_ok(s@, side@),
{
    if is_single(s, '-') {
        return true;
    }
    let rank = if is_single(side, 'w') {
        '6'
    } else {
        '3'
    };
    s.len() == 2 && 97 <= s[0] as u32 && s[0] as u32 <= 104 && s[1] == rank
}

/// Decimal digits only, with a value from `min` to `max`.
fn counter_in_range(s: &Vec<char>, min: u32, max: u32) -> (ok: bool)
    requires
        max < 100_000,
    ensures
        ok == counter_ok(s@, min as int, max as int),
{
    if s.len() == 0 {
        return false;
    }
    // The value so far, held at 100000 once it is past `max`.
    let mut acc: u32 = 0;
    let mut i: usize = 0;
    while i < s.len()
        invariant
            i <= s@.len(),
            max < 100_000,
            forall|k: int| 0 <= k < i ==> spec_is_digit(#[trigger] s@[k]),
            decimal_value(s@, i as nat) >= 0,
            acc == if decimal_value(s@, i as nat) >= 100_000 {
                100_000
            } else {
                decimal_value(s@, i as nat)
            },
        decreases s@.len() - i,
    {
        let u = s[i] as u32;
        if u < 48 || u > 57 {
            assert(!spec_is_digit(s@[i as int]));
            return false;
        }
        assert(decimal_value(s@, (i + 1) as nat) == decimal_value(s@, i as nat) * 10 + digit_value(s@[i as int]));
        let next = acc * 10 + (u - 48);
        acc = if next >= 100_000 {
            100_000
        } else {
            next
        };
        i += 1;
    }
    min <= acc && acc <= max
}

impl Position {
    /// Read a FEN from an untrusted source: the text is checked before it is
    /// read, and the position read is checked for castling homes, the
    /// en-passant target and the side that just moved not being in check.
    pub fn try_from_fen(fen: &str) -> (r: Result<Position, FenError>)
        ensures
            match r {
                Ok(p) => fen_fault(fen) is None && reads_fen(&p, fen@, seq![64u8, 64u8]),
                Err(e) => fen_fault(fen) is Some && e.0 == fault_message(fen_fault(fen).unwrap()),
            },
    {
        if fen.len() > 128 || !fen.is_ascii() {
            return Err(FenError::of(FenFault::TooLongOrNotAscii));
        }
        let chars = text_chars(fen);
        let w = split_whitespace(&chars);
        let ghost ws = words(fen@);
        assert(word_views(w@) == ws);
        if w.len() != 6 {
            return Err(FenError::of(FenFault::FieldCount));
        }
        assert(ws[0] == w@[0]@ && ws[1] == w@[1]@ && ws[2] == w@[2]@ && ws[3] == w@[3]@ && ws[4] == w@[4]@ && ws[5]
            == w@[5]@);
        match check_placement(&w[0]) {
            Some(f) => {
                return Err(FenError::of(f));
            },
            None => {},
        }
        if !check_roster(&w[0]) {
            return Err(FenError::of(FenFault::KingsOrPieces));
        }
        if !is_single(&w[1], 'w') && !is_single(&w[1], 'b') {
            return Err(FenError::of(FenFault::SideToMove));
        }
        match check_castling_field(&w[2]) {
            Some(f) => {
                return Err(FenError::of(f));
            },
            None => {},
        }
        if !check_ep_field(&w[3], &w[1]) {
            return Err(FenError::of(FenFault::EnPassantField));
        }
        if !counter_in_range(&w[4], 0, 100) || !counter_in_range(&w[5], 1, 60_000) {
            return Err(FenError::of(FenFault::Counters));
        }
        let mut pos = Position::empty();
        proof {
            lemma_placement_fits(ws[0]);
        }
        pos.set_from_fen(fen);
        assert(pos.king_sq@ == placement_after(ws[0], ws[0].len(), seq![64u8, 64u8]).1);
        if !castle_homes_hold(&pos.board, pos.castling_rights) {
            return Err(FenError::of(FenFault::CastlingPlacement));
        }
        if !ep_target_holds(&pos.board, pos.ep_square, pos.side_to_move) {
            return Err(FenError::of(FenFault::EnPassantPlacement));
        }
        if pos.in_check_color(opponent(pos.side_to_move)) {
            return Err(FenError::of(FenFault::OpponentInCheck));
        }
        assert(placement_fault(ws[0]) is None);
        assert(roster_ok(ws[0]));
        assert(castling_field_fault(ws[2]) is None);
        assert(ep_field_ok(ws[3], ws[1]));
        assert(counter_ok(ws[4], 0, 100));
        assert(counter_ok(ws[5], 1, 60000));
        Ok(pos)
    }
}

fn holds_exec(board: &[Piece; 64], sq: usize, pt: PieceType, color: Color) -> (b: bool)
    requires
        sq < 64,
    ensures
        b == holds(board@, sq as int, pt, color),
{
    board[sq].piece_type == pt && board[sq].color == color
}

fn castle_homes_hold(board: &[Piece; 64], rights: u8) -> (ok: bool)
    ensures
        ok == castle_homes_ok(board@, rights),
{
    !(rights & CASTLE_WK != 0 && !(holds_exec(board, 4, PieceType::King, Color::White) && holds_exec(
        board,
        7,
        PieceType::Rook,
        Color::White,
    ))) && !(rights & CASTLE_WQ != 0 && !(holds_exec(board, 4, PieceType::King, Color::White) && holds_exec(
        board,
        0,
        PieceType::Rook,
        Color::White,
    ))) && !(rights & CASTLE_BK != 0 && !(holds_exec(board, 60, PieceType::King, Color::Black) && holds_exec(
        board,
        63,
        PieceType::Rook,
        Color::Black,
    ))) && !(rights & CASTLE_BQ != 0 && !(holds_exec(board, 60, PieceType::King, Color::Black) && holds_exec(
        board,
        56,
        PieceType::Rook,
        Color::Black,
    )))
}

fn ep_target_holds(board: &[Piece; 64], ep: Square, side: Color) -> (ok: bool)
    ensures
        ok == ep_target_ok(board@, ep, side),
{
    if ep >= 64 {
        return true;
    }
    let captured: i32 = if side == Color::White {
        ep as i32 - 8
    } else {
        ep as i32 + 8
    };
    if captured < 0 || captured >= 64 {
        return false;
    }
    board[ep as usize].is_empty() && holds_exec(board, captured as usize, PieceType::Pawn, opponent(side))
}

} // verus!
