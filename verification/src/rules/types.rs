//! Squares, pieces, moves and the small rules shared by every consumer.
use vstd::prelude::*;

verus! {

/// A board square, 0 (a1) to 63 (h8); 64 stands for "none" where noted.
pub type Square = u8;

#[derive(Clone, Copy, PartialEq, Eq, Debug, Structural)]
pub enum Color {
    White,
    Black,
}

impl Default for Color {
    fn default() -> (c: Self)
        ensures
            c == Color::White,
    {
        Color::White
    }
}

impl Color {
    /// The color's index in per-color tables: White 0, Black 1.
    pub open spec fn spec_index(self) -> int {
        match self {
            Color::White => 0,
            Color::Black => 1,
        }
    }

    pub fn index(self) -> (i: usize)
        ensures
            i == self.spec_index(),
    {
        match self {
            Color::White => 0,
            Color::Black => 1,
        }
    }
}

#[derive(Clone, Copy, PartialEq, Eq, Debug, Structural)]
pub enum PieceType {
    Empty,
    Pawn,
    Knight,
    Bishop,
    Rook,
    Queen,
    King,
}

impl Default for PieceType {
    fn default() -> (p: Self)
        ensures
            p == PieceType::Empty,
    {
        PieceType::Empty
    }
}

impl PieceType {
    /// The piece type's index in per-piece tables: Empty 0, Pawn 1, ..., King 6.
    pub open spec fn spec_index(self) -> int {
        match self {
            PieceType::Empty => 0,
            PieceType::Pawn => 1,
            PieceType::Knight => 2,
            PieceType::Bishop => 3,
            PieceType::Rook => 4,
            PieceType::Queen => 5,
            PieceType::King => 6,
        }
    }

    pub fn index(self) -> (i: usize)
        ensures
            i == self.spec_index(),
    {
        match self {
            PieceType::Empty => 0,
            PieceType::Pawn => 1,
            PieceType::Knight => 2,
            PieceType::Bishop => 3,
            PieceType::Rook => 4,
            PieceType::Queen => 5,
            PieceType::King => 6,
        }
    }
}

#[derive(Clone, Copy, PartialEq, Eq, Debug, Structural)]
pub enum SpecialMove {
    Normal,
    Castle,
    EnPassant,
    Promotion,
}

impl Default for SpecialMove {
    fn default() -> (s: Self)
        ensures
            s == SpecialMove::Normal,
    {
        SpecialMove::Normal
    }
}

impl SpecialMove {
    /// The wire index: Normal 0, Castle 1, EnPassant 2, Promotion 3.
    pub open spec fn spec_index(self) -> int {
        match self {
            SpecialMove::Normal => 0,
            SpecialMove::Castle => 1,
            SpecialMove::EnPassant => 2,
            SpecialMove::Promotion => 3,
        }
    }

    pub fn index(self) -> (i: u32)
        ensures
            i == self.spec_index(),
    {
        match self {
            SpecialMove::Normal => 0,
            SpecialMove::Castle => 1,
            SpecialMove::EnPassant => 2,
            SpecialMove::Promotion => 3,
        }
    }
}

/// A lossless move: the path kind chooses between the two knight routes, the
/// stop index records how far a slider travelled.
#[derive(Clone, Copy, PartialEq, Eq, Debug, Structural)]
pub struct Move {
    pub from: Square,
    pub to: Square,
    pub path_kind: u8,
    pub stop_index: u8,
    pub special: SpecialMove,
    pub promo_piece: PieceType,
}

impl Default for Move {
    fn default() -> (m: Self)
        ensures
            m == Move::null(),
    {
        Move {
            from: 0,
            to: 0,
            path_kind: 0,
            stop_index: 0,
            special: SpecialMove::Normal,
            promo_piece: PieceType::Empty,
        }
    }
}

impl Move {
    /// The all-zero move that stands for "no move".
    pub open spec fn null() -> Move {
        Move {
            from: 0,
            to: 0,
            path_kind: 0,
            stop_index: 0,
            special: SpecialMove::Normal,
            promo_piece: PieceType::Empty,
        }
    }

    /// Every field fits the bit field that `id` gives it.
    pub open spec fn fits_id(self) -> bool {
        &&& self.from < 64
        &&& self.to < 64
        &&& self.path_kind < 4
        &&& self.stop_index < 16
    }

    /// The packed wire identifier: from in bits 0..6, to in 6..12, path kind in
    /// 12..14, stop index in 14..18, special in 18..20, promotion piece from 20.
    pub open spec fn spec_id(self) -> u32 {
        (self.from as u32) | ((self.to as u32) << 6u32) | ((self.path_kind as u32) << 12u32) | (
        (self.stop_index as u32) << 14u32) | ((self.special.spec_index() as u32) << 18u32) | ((
        self.promo_piece.spec_index() as u32) << 20u32)
    }

    /// Lossless wire identifier, resolved against the current legal move list.
    /// Never decode an untrusted ID directly into a move.
    pub fn id(self) -> (r: u32)
        ensures
            r == self.spec_id(),
    {
        let promo = self.promo_piece.index() as u32;
        (self.from as u32) | ((self.to as u32) << 6u32) | ((self.path_kind as u32) << 12u32) | ((
        self.stop_index as u32) << 14u32) | (self.special.index() << 18u32) | (promo << 20u32)
    }
}

/// Two moves whose fields fit their bit fields have equal identifiers only
/// when they are the same move.
pub proof fn lemma_move_id_lossless(a: Move, b: Move)
    requires
        a.fits_id(),
        b.fits_id(),
        a.spec_id() == b.spec_id(),
    ensures
        a == b,
{
    let (af, at, ap, ast, asp, apr) = (
        a.from as u32,
        a.to as u32,
        a.path_kind as u32,
        a.stop_index as u32,
        a.special.spec_index() as u32,
        a.promo_piece.spec_index() as u32,
    );
    let (bf, bt, bp, bst, bsp, bpr) = (
        b.from as u32,
        b.to as u32,
        b.path_kind as u32,
        b.stop_index as u32,
        b.special.spec_index() as u32,
        b.promo_piece.spec_index() as u32,
    );
    assert(af == bf && at == bt && ap == bp && ast == bst && asp == bsp && apr == bpr)
        by (bit_vector)
        requires
            af < 64 && at < 64 && ap < 4 && ast < 16 && asp < 4 && apr < 8,
            bf < 64 && bt < 64 && bp < 4 && bst < 16 && bsp < 4 && bpr < 8,
            af | (at << 6u32) | (ap << 12u32) | (ast << 14u32) | (asp << 18u32) | (apr << 20u32)
                == bf | (bt << 6u32) | (bp << 12u32) | (bst << 14u32) | (bsp << 18u32) | (bpr
                << 20u32),
    ;
}

#[derive(Clone, Debug)]
pub struct SearchBudget {
    pub max_time_us: i64,
    pub max_nodes: i64,
    pub max_depth: i32,
    pub seed: u64,
}

impl Default for SearchBudget {
    fn default() -> (b: Self)
        ensures
            b.max_time_us == 0 && b.max_nodes == 0 && b.max_depth == 0 && b.seed == 0,
    {
        SearchBudget { max_time_us: 0, max_nodes: 0, max_depth: 0, seed: 0 }
    }
}

#[derive(Clone, Debug)]
pub struct SearchStats {
    pub nodes: u64,
    pub depth_reached: u32,
    pub seldepth: u32,
    pub eval_cp: i32,
    pub time_used_us: i64,
    pub pv: Vec<Move>,
    pub diag_json: String,
}

impl Default for SearchStats {
    fn default() -> (s: Self)
        ensures
            s.nodes == 0 && s.depth_reached == 0 && s.seldepth == 0 && s.eval_cp == 0
                && s.time_used_us == 0 && s.pv@.len() == 0 && s.diag_json@.len() == 0,
    {
        SearchStats {
            nodes: 0,
            depth_reached: 0,
            seldepth: 0,
            eval_cp: 0,
            time_used_us: 0,
            pv: Vec::new(),
            diag_json: String::new(),
        }
    }
}

#[derive(Clone, Copy, PartialEq, Eq, Debug, Structural)]
pub struct Piece {
    pub piece_type: PieceType,
    pub color: Color,
}

impl Default for Piece {
    fn default() -> (p: Self)
        ensures
            p == Piece::empty(),
    {
        Piece { piece_type: PieceType::Empty, color: Color::White }
    }
}

impl Piece {
    /// The value that fills an empty square.
    pub open spec fn empty() -> Piece {
        Piece { piece_type: PieceType::Empty, color: Color::White }
    }

    pub open spec fn spec_is_empty(self) -> bool {
        self.piece_type == PieceType::Empty
    }

    pub open spec fn spec_is_color(self, c: Color) -> bool {
        !self.spec_is_empty() && self.color == c
    }

    #[verifier::when_used_as_spec(spec_is_empty)]
    pub fn is_empty(self) -> (b: bool)
        ensures
            b == self.spec_is_empty(),
    {
        match self.piece_type {
            PieceType::Empty => true,
            _ => false,
        }
    }

    #[verifier::when_used_as_spec(spec_is_color)]
    pub fn is_color(self, c: Color) -> (b: bool)
        ensures
            b == self.spec_is_color(c),
    {
        !self.is_empty() && self.color == c
    }
}

pub open spec fn spec_rank_of(sq: Square) -> int {
    sq as int / 8
}

pub open spec fn spec_file_of(sq: Square) -> int {
    sq as int % 8
}

pub fn rank_of(sq: Square) -> (r: i32)
    ensures
        r == sq / 8,
{
    (sq / 8) as i32
}

pub fn file_of(sq: Square) -> (f: i32)
    ensures
        f == sq % 8,
{
    (sq % 8) as i32
}

/// The square with the given rank and file, wrapping as a `u8` does.
pub open spec fn spec_make_square(r: int, f: int) -> Square {
    (r * 8 + f) as u8
}

pub fn make_square(r: i32, f: i32) -> (s: Square)
    requires
        i32::MIN <= r * 8 <= i32::MAX,
        i32::MIN <= r * 8 + f <= i32::MAX,
    ensures
        s == spec_make_square(r as int, f as int),
        0 <= r < 8 && 0 <= f < 8 ==> s == r * 8 + f,
{
    (#[verifier::truncate] ((r * 8 + f) as Square))
}

pub open spec fn spec_valid_rf(r: int, f: int) -> bool {
    0 <= r < 8 && 0 <= f < 8
}

pub fn valid_rf(r: i32, f: i32) -> (b: bool)
    ensures
        b == spec_valid_rf(r as int, f as int),
{
    0 <= r && r < 8 && 0 <= f && f < 8
}

pub open spec fn spec_opponent(c: Color) -> Color {
    match c {
        Color::White => Color::Black,
        Color::Black => Color::White,
    }
}

#[verifier::when_used_as_spec(spec_opponent)]
pub fn opponent(c: Color) -> (o: Color)
    ensures
        o == spec_opponent(c),
{
    if c == Color::White {
        Color::Black
    } else {
        Color::White
    }
}

pub const CASTLE_WK: u8 = 1;

pub const CASTLE_WQ: u8 = 2;

pub const CASTLE_BK: u8 = 4;

pub const CASTLE_BQ: u8 = 8;

/// Whether square `sq` is set in the occupancy mask `mask`.
pub open spec fn mask_has(mask: u64, sq: u64) -> bool {
    mask & (1u64 << sq) != 0
}

/// The rights that a change to the listed squares revokes: the king's home
/// revokes both of its side's rights, a rook's home revokes that rook's right.
pub open spec fn revoked_rights(affected: u64) -> u8 {
    (if mask_has(affected, 4) { 3u8 } else { 0u8 }) | (if mask_has(affected, 60) {
        12u8
    } else {
        0u8
    }) | (if mask_has(affected, 0) { 2u8 } else { 0u8 }) | (if mask_has(affected, 7) {
        1u8
    } else {
        0u8
    }) | (if mask_has(affected, 56) { 8u8 } else { 0u8 }) | (if mask_has(affected, 63) {
        4u8
    } else {
        0u8
    })
}

pub open spec fn spec_castling_after_move(rights: u8, affected: u64) -> u8 {
    rights & !revoked_rights(affected)
}

/// Castling belongs to the original king/rooks, including when pushed. The
/// affected-square set is shared by the rules engine and prepared search board.
pub fn castling_after_move(rights: u8, affected: u64) -> (r: u8)
    ensures
        r == spec_castling_after_move(rights, affected),
{
    let king_w: u8 = if affected & (1u64 << 4u64) != 0 { 3 } else { 0 };
    let king_b: u8 = if affected & (1u64 << 60u64) != 0 { 12 } else { 0 };
    let rook_wq: u8 = if affected & (1u64 << 0u64) != 0 { 2 } else { 0 };
    let rook_wk: u8 = if affected & (1u64 << 7u64) != 0 { 1 } else { 0 };
    let rook_bq: u8 = if affected & (1u64 << 56u64) != 0 { 8 } else { 0 };
    let rook_bk: u8 = if affected & (1u64 << 63u64) != 0 { 4 } else { 0 };
    let revoked = king_w | king_b | rook_wq | rook_wk | rook_bq | rook_bk;
    rights & !revoked
}

pub const PIECE_VALUES: [i32; 7] = [0, 100, 320, 330, 500, 900, 0];

pub open spec fn spec_pval(pt: PieceType) -> i32 {
    match pt {
        PieceType::Empty => 0,
        PieceType::Pawn => 100,
        PieceType::Knight => 320,
        PieceType::Bishop => 330,
        PieceType::Rook => 500,
        PieceType::Queen => 900,
        PieceType::King => 0,
    }
}

/// The material value of a piece type (kings and empty squares are worth 0).
pub fn pval(pt: PieceType) -> (v: i32)
    ensures
        v == spec_pval(pt),
        v == PIECE_VALUES@[pt.spec_index()],
{
    match pt {
        PieceType::Empty => 0,
        PieceType::Pawn => 100,
        PieceType::Knight => 320,
        PieceType::Bishop => 330,
        PieceType::Rook => 500,
        PieceType::Queen => 900,
        PieceType::King => 0,
    }
}

} // verus!
