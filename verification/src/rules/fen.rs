//! Forsyth–Edwards Notation: reading a position from text and writing it back.
use vstd::prelude::*;
use vstd::std_specs::iter::IteratorSpec;
use super::position::Position;
use super::types::{CASTLE_BK, CASTLE_BQ, CASTLE_WK, CASTLE_WQ, Color, Piece, PieceType, Square, make_square, spec_make_square};

verus! {

/// The characters of `s`, in order.
pub fn text_chars(s: &str) -> (v: Vec<char>)
    ensures
        v@ == s@,
{
    broadcast use vstd::string::group_string_axioms;

    let mut it = s.chars();
    let mut v: Vec<char> = Vec::new();
    loop
        invariant
            v@ + it.remaining() == s@,
            it.decrease() is Some,
        ensures
            v@ == s@,
        decreases it.decrease()->0,
    {
        match it.next() {
            Some(c) => {
                v.push(c);
            },
            None => {
                break ;
            },
        }
    }
    v
}

/// Unicode's White_Space property, which separates the fields of a FEN.
pub open spec fn spec_is_white(c: char) -> bool {
    let u = c as u32;
    ||| 9 <= u <= 13
    ||| u == 32
    ||| u == 0x85
    ||| u == 0xA0
    ||| u == 0x1680
    ||| 0x2000 <= u <= 0x200A
    ||| u == 0x2028
    ||| u == 0x2029
    ||| u == 0x202F
    ||| u == 0x205F
    ||| u == 0x3000
}

pub fn is_white(c: char) -> (b: bool)
    ensures
        b == spec_is_white(c),
{
    let u = c as u32;
    (9 <= u && u <= 13) || u == 32 || u == 0x85 || u == 0xA0 || u == 0x1680 || (0x2000 <= u && u <= 0x200A)
        || u == 0x2028 || u == 0x2029 || u == 0x202F || u == 0x205F || u == 0x3000
}

/// The whitespace-separated words of `s` from position `i` on, `cur` being
/// the part of a word already read.
pub open spec fn split_words(s: Seq<char>, i: nat, cur: Seq<char>) -> Seq<Seq<char>>
    decreases s.len() - i,
{
    let done: Seq<Seq<char>> = if cur.len() > 0 {
        seq![cur]
    } else {
        Seq::empty()
    };
    if i >= s.len() {
        done
    } else if spec_is_white(s[i as int]) {
        done + split_words(s, i + 1, Seq::empty())
    } else {
        split_words(s, i + 1, cur.push(s[i as int]))
    }
}

/// The whitespace-separated words of `s`, in order.
pub open spec fn words(s: Seq<char>) -> Seq<Seq<char>> {
    split_words(s, 0, Seq::empty())
}

pub open spec fn word_views(v: Seq<Vec<char>>) -> Seq<Seq<char>> {
    Seq::new(v.len(), |i: int| v[i]@)
}

/// Split the characters of a text at whitespace.
pub fn split_whitespace(s: &Vec<char>) -> (out: Vec<Vec<char>>)
    ensures
        word_views(out@) == words(s@),
{
    let mut out: Vec<Vec<char>> = Vec::new();
    let mut cur: Vec<char> = Vec::new();
    let mut i: usize = 0;
    while i < s.len()
        invariant
            i <= s@.len(),
            word_views(out@) + split_words(s@, i as nat, cur@) == words(s@),
        decreases s@.len() - i,
    {
        let c = s[i];
        let ghost before = word_views(out@);
        if is_white(c) {
            if cur.len() > 0 {
                out.push(cur);
                assert(word_views(out@) =~= before + seq![cur@]);
            }
            cur = Vec::new();
        } else {
            cur.push(c);
        }
        i += 1;
    }
    let ghost before = word_views(out@);
    if cur.len() > 0 {
        out.push(cur);
        assert(word_views(out@) =~= before + seq![cur@]);
    }
    assert(split_words(s@, i as nat, cur@) =~= (if cur@.len() > 0 {
        seq![cur@]
    } else {
        Seq::<Seq<char>>::empty()
    }));
    assert(word_views(out@) =~= words(s@));
    out
}

pub open spec fn spec_is_digit(c: char) -> bool {
    48 <= c as u32 <= 57
}

pub open spec fn digit_value(c: char) -> int {
    c as u32 - 48
}

/// The decimal value of the first `n` characters of `d`.
pub open spec fn decimal_value(d: Seq<char>, n: nat) -> int
    decreases n,
{
    if n == 0 || n > d.len() {
        0
    } else {
        decimal_value(d, (n - 1) as nat) * 10 + digit_value(d[n - 1])
    }
}

/// The digits of a number text: without one leading `+`, if there is one.
pub open spec fn unsigned_digits(s: Seq<char>) -> Seq<char> {
    if s.len() > 0 && s[0] == '+' {
        s.drop_first()
    } else {
        s
    }
}

/// What `str::parse::<u16>` gives: an optional `+`, then at least one ASCII
/// digit and nothing else, with a value that fits in 16 bits.
pub open spec fn spec_parse_u16(s: Seq<char>) -> Option<u16> {
    let d = unsigned_digits(s);
    if d.len() == 0 || exists|i: int| 0 <= i < d.len() && !spec_is_digit(#[trigger] d[i]) {
        None
    } else if decimal_value(d, d.len()) > u16::MAX {
        None
    } else {
        Some(decimal_value(d, d.len()) as u16)
    }
}

proof fn lemma_decimal_value_nonneg(d: Seq<char>, n: nat)
    requires
        forall|i: int| 0 <= i < d.len() ==> spec_is_digit(#[trigger] d[i]),
    ensures
        decimal_value(d, n) >= 0,
    decreases n,
{
    if n > 0 && n <= d.len() {
        lemma_decimal_value_nonneg(d, (n - 1) as nat);
    }
}

/// Parse a decimal `u16` the way `str::parse::<u16>` does.
pub fn parse_u16(s: &Vec<char>) -> (r: Option<u16>)
    ensures
        r == spec_parse_u16(s@),
{
    let ghost d = unsigned_digits(s@);
    let start: usize = if s.len() > 0 && s[0] == '+' {
        1
    } else {
        0
    };
    assert(d =~= s@.subrange(start as int, s@.len() as int));
    if start >= s.len() {
        return None;
    }
    // The value so far, held at 65536 once it is past the 16-bit range.
    let mut acc: u32 = 0;
    let mut i: usize = start;
    while i < s.len()
        invariant
            start <= i <= s@.len(),
            d == unsigned_digits(s@),
            d =~= s@.subrange(start as int, s@.len() as int),
            forall|k: int| 0 <= k < i - start ==> spec_is_digit(#[trigger] d[k]),
            acc == if decimal_value(d, (i - start) as nat) > 65535 {
                65536
            } else {
                decimal_value(d, (i - start) as nat)
            },
        decreases s@.len() - i,
    {
        let c = s[i];
        let u = c as u32;
        assert(d[i - start] == c);
        if u < 48 || u > 57 {
            assert(!spec_is_digit(d[i - start]));
            assert(exists|k: int| 0 <= k < d.len() && !spec_is_digit(#[trigger] d[k]));
            return None;
        }
        proof {
            assert(decimal_value(d, (i + 1 - start) as nat) == decimal_value(d, (i - start) as nat) * 10 + digit_value(
                d[i - start],
            ));
            assert(d[i - start] == c);
            if decimal_value(d, (i - start) as nat) > 65535 {
                assert(decimal_value(d, (i - start) as nat) * 10 + digit_value(c) > 65535);
            }
        }
        let next = acc * 10 + (u - 48);
        acc = if next > 65535 {
            65536
        } else {
            next
        };
        i += 1;
    }
    proof {
        lemma_decimal_value_nonneg(d, d.len());
    }
    if acc > 65535 {
        None
    } else {
        Some(acc as u16)
    }
}

pub open spec fn spec_char_to_piece_type(c: char) -> PieceType {
    if c == 'p' || c == 'P' {
        PieceType::Pawn
    } else if c == 'n' || c == 'N' {
        PieceType::Knight
    } else if c == 'b' || c == 'B' {
        PieceType::Bishop
    } else if c == 'r' || c == 'R' {
        PieceType::Rook
    } else if c == 'q' || c == 'Q' {
        PieceType::Queen
    } else if c == 'k' || c == 'K' {
        PieceType::King
    } else {
        PieceType::Empty
    }
}

/// The piece type a FEN letter names, in either case; any other character
/// names no piece.
pub fn char_to_piece_type(c: char) -> (pt: PieceType)
    ensures
        pt == spec_char_to_piece_type(c),
{
    if c == 'p' || c == 'P' {
        PieceType::Pawn
    } else if c == 'n' || c == 'N' {
        PieceType::Knight
    } else if c == 'b' || c == 'B' {
        PieceType::Bishop
    } else if c == 'r' || c == 'R' {
        PieceType::Rook
    } else if c == 'q' || c == 'Q' {
        PieceType::Queen
    } else if c == 'k' || c == 'K' {
        PieceType::King
    } else {
        PieceType::Empty
    }
}

/// Upper-case ASCII letters place White pieces; every other character Black.
pub open spec fn placed_color(c: char) -> Color {
    if 65 <= c as u32 <= 90 {
        Color::White
    } else {
        Color::Black
    }
}

pub open spec fn is_skip_digit(c: char) -> bool {
    49 <= c as u32 <= 56
}

/// The (rank, file) cursor after one character of the placement field: `/`
/// starts the next rank down, a digit skips that many files, anything else
/// fills one square.
pub open spec fn cursor_step(cur: (int, int), c: char) -> (int, int) {
    if c == '/' {
        (cur.0 - 1, 0)
    } else if is_skip_digit(c) {
        (cur.0, cur.1 + digit_value(c))
    } else {
        (cur.0, cur.1 + 1)
    }
}

/// The cursor after the first `n` characters, starting on rank 8, file a.
pub open spec fn cursor_after(s: Seq<char>, n: nat) -> (int, int)
    decreases n,
{
    if n == 0 || n > s.len() {
        (7, 0)
    } else {
        cursor_step(cursor_after(s, (n - 1) as nat), s[n - 1])
    }
}

/// A character can be read at the cursor without leaving the 32-bit
/// counters, and a piece lands on a square of the board.
pub open spec fn step_fits(cur: (int, int), c: char) -> bool {
    if c == '/' {
        cur.0 - 1 >= i32::MIN
    } else if is_skip_digit(c) {
        cur.1 + digit_value(c) <= i32::MAX
    } else {
        &&& i32::MIN <= cur.0 * 8 <= i32::MAX
        &&& i32::MIN <= cur.0 * 8 + cur.1 <= i32::MAX
        &&& spec_make_square(cur.0, cur.1) < 64
        &&& cur.1 + 1 <= i32::MAX
    }
}

/// Every character of a placement field can be read.
pub open spec fn placement_fits(s: Seq<char>) -> bool {
    forall|i: int| 0 <= i < s.len() ==> step_fits(cursor_after(s, i as nat), #[trigger] s[i])
}

pub open spec fn empty_board() -> Seq<Piece> {
    Seq::new(64, |i: int| Piece::empty())
}

/// The board and king squares after one character at cursor `cur`.
pub open spec fn place_step(placed: (Seq<Piece>, Seq<Square>), cur: (int, int), c: char) -> (Seq<Piece>, Seq<Square>) {
    if c == '/' || is_skip_digit(c) {
        placed
    } else {
        let sq = spec_make_square(cur.0, cur.1);
        let pt = spec_char_to_piece_type(c);
        let color = placed_color(c);
        (
            placed.0.update(sq as int, Piece { piece_type: pt, color }),
            if pt == PieceType::King {
                placed.1.update(color.spec_index(), sq)
            } else {
                placed.1
            },
        )
    }
}

/// The board and king squares after the first `n` characters, from an empty
/// board and the given king squares.
pub open spec fn placement_after(s: Seq<char>, n: nat, kings: Seq<Square>) -> (Seq<Piece>, Seq<Square>)
    decreases n,
{
    if n == 0 || n > s.len() {
        (empty_board(), kings)
    } else {
        place_step(placement_after(s, (n - 1) as nat, kings), cursor_after(s, (n - 1) as nat), s[n - 1])
    }
}

/// Read a placement field onto an empty board; king squares not named keep
/// their given value.
fn read_placement(text: &Vec<char>, kings: [Square; 2]) -> (r: ([Piece; 64], [Square; 2]))
    requires
        placement_fits(text@),
    ensures
        (r.0@, r.1@) == placement_after(text@, text@.len(), kings@),
{
    let mut board = [Piece { piece_type: PieceType::Empty, color: Color::White }; 64];
    let mut king_sq = kings;
    let mut rank: i32 = 7;
    let mut file: i32 = 0;
    let mut i: usize = 0;
    assert(board@ =~= empty_board());
    while i < text.len()
        invariant
            i <= text@.len(),
            placement_fits(text@),
            (rank as int, file as int) == cursor_after(text@, i as nat),
            (board@, king_sq@) == placement_after(text@, i as nat, kings@),
        decreases text@.len() - i,
    {
        let c = text[i];
        assert(step_fits(cursor_after(text@, i as nat), text@[i as int]));
        if c == '/' {
            rank -= 1;
            file = 0;
        } else if 49 <= c as u32 && c as u32 <= 56 {
            file += (c as u32 - 48) as i32;
        } else {
            let color = if 65 <= c as u32 && c as u32 <= 90 {
                Color::White
            } else {
                Color::Black
            };
            let pt = char_to_piece_type(c);
            let sq = make_square(rank, file);
            board[sq as usize] = Piece { piece_type: pt, color };
            if pt == PieceType::King {
                king_sq[color.index()] = sq;
            }
            file += 1;
        }
        i += 1;
    }
    (board, king_sq)
}

/// The field at `k`, or `default` where the text has fewer fields.
pub open spec fn field(w: Seq<Seq<char>>, k: int, default: Seq<char>) -> Seq<char> {
    if 0 <= k < w.len() {
        w[k]
    } else {
        default
    }
}

pub open spec fn castle_flag(c: char) -> u8 {
    if c == 'K' {
        CASTLE_WK
    } else if c == 'Q' {
        CASTLE_WQ
    } else if c == 'k' {
        CASTLE_BK
    } else if c == 'q' {
        CASTLE_BQ
    } else {
        0
    }
}

/// The castling rights the first `n` characters grant; other characters are ignored.
pub open spec fn castle_bits(s: Seq<char>, n: nat) -> u8
    decreases n,
{
    if n == 0 || n > s.len() {
        0
    } else {
        castle_bits(s, (n - 1) as nat) | castle_flag(s[n - 1])
    }
}

/// The en-passant square a field names: a file letter and a rank digit, or none (64).
pub open spec fn spec_ep_square(s: Seq<char>) -> Square {
    if s.len() == 2 && 97 <= s[0] as u32 <= 104 && 49 <= s[1] as u32 <= 56 {
        ((s[1] as u32 - 49) * 8 + (s[0] as u32 - 97)) as Square
    } else {
        64
    }
}

fn read_castling(text: &Vec<char>) -> (rights: u8)
    ensures
        rights == castle_bits(text@, text@.len()),
        rights < 16,
{
    let mut rights: u8 = 0;
    let mut i: usize = 0;
    while i < text.len()
        invariant
            i <= text@.len(),
            rights == castle_bits(text@, i as nat),
            rights < 16,
        decreases text@.len() - i,
    {
        let c = text[i];
        let flag: u8 = if c == 'K' {
            CASTLE_WK
        } else if c == 'Q' {
            CASTLE_WQ
        } else if c == 'k' {
            CASTLE_BK
        } else if c == 'q' {
            CASTLE_BQ
        } else {
            0
        };
        assert(rights < 16 && (flag == 0 || flag == 1 || flag == 2 || flag == 4 || flag == 8) ==> (rights | flag) < 16)
            by (bit_vector);
        rights = rights | flag;
        i += 1;
    }
    rights
}

fn read_ep_square(text: &Vec<char>) -> (sq: Square)
    ensures
        sq == spec_ep_square(text@),
{
    if text.len() == 2 {
        let f = text[0] as u32;
        let r = text[1] as u32;
        if 97 <= f && f <= 104 && 49 <= r && r <= 56 {
            return ((r - 49) * 8 + (f - 97)) as Square;
        }
    }
    64
}

/// What `set_from_fen` reads from a text, field by field.
pub open spec fn fen_side(w: Seq<Seq<char>>) -> Color {
    if field(w, 1, seq!['w']) == seq!['b'] {
        Color::Black
    } else {
        Color::White
    }
}

pub open spec fn fen_counter(w: Seq<Seq<char>>, k: int, default: u16) -> u16 {
    match spec_parse_u16(field(w, k, Seq::empty())) {
        Some(v) => v,
        None => default,
    }
}

/// The side to move, castling rights, en-passant square and counters of a
/// FEN split into words.
fn read_state_fields(w: &Vec<Vec<char>>) -> (r: (Color, u8, Square, u16, u16))
    ensures
        ({
            let ws = word_views(w@);
            let castling = field(ws, 2, seq!['-']);
            &&& r.0 == fen_side(ws)
            &&& r.1 == castle_bits(castling, castling.len())
            &&& r.1 < 16
            &&& r.2 == spec_ep_square(field(ws, 3, seq!['-']))
            &&& r.3 == fen_counter(ws, 4, 0)
            &&& r.4 == fen_counter(ws, 5, 1)
        }),
{
    let ghost ws = word_views(w@);
    let side = if w.len() > 1 && w[1].len() == 1 && w[1][0] == 'b' {
        assert(w@[1]@ =~= seq!['b']);
        Color::Black
    } else {
        let ghost b = seq!['b'];
        let ghost white = seq!['w'];
        assert(b.len() == 1 && b[0] == 'b' && white[0] == 'w');
        if w.len() > 1 && w[1].len() == 1 {
            assert(w@[1]@[0] != b[0]);
        }
        Color::White
    };
    let rights = if w.len() > 2 {
        read_castling(&w[2])
    } else {
        let ghost dash = seq!['-'];
        assert(dash[0] == '-');
        assert(castle_bits(dash, 0) == 0);
        assert(castle_bits(dash, 1) == (0u8 | 0u8));
        assert((0u8 | 0u8) == 0u8) by (bit_vector);
        0
    };
    let ep = if w.len() > 3 {
        read_ep_square(&w[3])
    } else {
        64
    };
    let halfmove = if w.len() > 4 {
        match parse_u16(&w[4]) {
            Some(v) => v,
            None => 0,
        }
    } else {
        0
    };
    let fullmove = if w.len() > 5 {
        match parse_u16(&w[5]) {
            Some(v) => v,
            None => 1,
        }
    } else {
        1
    };
    (side, rights, ep, halfmove, fullmove)
}

/// `p` is what reading the FEN `text` gives, king squares the placement does
/// not name keeping the values `kings`.
pub open spec fn reads_fen(p: &Position, text: Seq<char>, kings: Seq<Square>) -> bool {
    let w = words(text);
    let placement = field(w, 0, Seq::empty());
    let placed = placement_after(placement, placement.len(), kings);
    let castling = field(w, 2, seq!['-']);
    &&& p.board@ == placed.0
    &&& p.king_sq@ == placed.1
    &&& p.side_to_move == fen_side(w)
    &&& p.castling_rights == castle_bits(castling, castling.len())
    &&& p.ep_square == spec_ep_square(field(w, 3, seq!['-']))
    &&& p.halfmove_clock == fen_counter(w, 4, 0)
    &&& p.fullmove_number == fen_counter(w, 5, 1)
    &&& p.zobrist == p.spec_hash()
    &&& p.undo_stack@.len() == 0
}

impl Position {
    /// Set the position from a FEN. Missing trailing fields take their usual
    /// defaults (White to move, no castling, no en-passant square, counters
    /// 0 and 1); unreadable counters fall back to those defaults too. King
    /// squares the placement does not name are left as they were.
    pub fn set_from_fen(&mut self, fen: &str)
        requires
            placement_fits(field(words(fen@), 0, Seq::empty())),
        ensures
            reads_fen(final(self), fen@, old(self).king_sq@),
    {
        let chars = text_chars(fen);
        let w = split_whitespace(&chars);
        let ghost ws = words(fen@);
        assert(word_views(w@) == ws);
        let none: Vec<char> = Vec::new();
        let placement = if w.len() > 0 {
            &w[0]
        } else {
            &none
        };
        assert(placement@ == field(ws, 0, Seq::empty()));
        let (board, kings) = read_placement(placement, self.king_sq);
        self.board = board;
        self.king_sq = kings;
        self.undo_stack = Vec::new();
        let (side, rights, ep, halfmove, fullmove) = read_state_fields(&w);
        self.side_to_move = side;
        self.castling_rights = rights;
        self.ep_square = ep;
        self.halfmove_clock = halfmove;
        self.fullmove_number = fullmove;
        self.compute_zobrist();
    }
}

pub open spec fn piece_char(p: Piece) -> char {
    if p.spec_is_empty() {
        '.'
    } else if p.color == Color::White {
        match p.piece_type {
            PieceType::Pawn => 'P',
            PieceType::Knight => 'N',
            PieceType::Bishop => 'B',
            PieceType::Rook => 'R',
            PieceType::Queen => 'Q',
            _ => 'K',
        }
    } else {
        match p.piece_type {
            PieceType::Pawn => 'p',
            PieceType::Knight => 'n',
            PieceType::Bishop => 'b',
            PieceType::Rook => 'r',
            PieceType::Queen => 'q',
            _ => 'k',
        }
    }
}

/// The FEN letter of a piece: upper case for White, lower case for Black,
/// `.` for an empty square.
pub fn piece_to_char(p: Piece) -> (c: char)
    ensures
        c == piece_char(p),
{
    if p.is_empty() {
        return '.';
    }
    if p.color == Color::White {
        match p.piece_type {
            PieceType::Pawn => 'P',
            PieceType::Knight => 'N',
            PieceType::Bishop => 'B',
            PieceType::Rook => 'R',
            PieceType::Queen => 'Q',
            _ => 'K',
        }
    } else {
        match p.piece_type {
            PieceType::Pawn => 'p',
            PieceType::Knight => 'n',
            PieceType::Bishop => 'b',
            PieceType::Rook => 'r',
            PieceType::Queen => 'q',
            _ => 'k',
        }
    }
}

pub open spec fn digit_char(n: int) -> char {
    (48 + n) as char
}

/// The decimal digits of `n`, most significant first.
pub open spec fn decimal(n: nat) -> Seq<char>
    decreases n,
{
    if n < 10 {
        seq![digit_char(n as int)]
    } else {
        decimal(n / 10).push(digit_char((n % 10) as int))
    }
}

fn push_decimal(out: &mut Vec<char>, n: u16)
    ensures
        final(out)@ == old(out)@ + decimal(n as nat),
    decreases n,
{
    if n >= 10 {
        push_decimal(out, n / 10);
    }
    let d = (n % 10) as u8;
    out.push((48u8 + d) as char);
    assert(out@ =~= old(out)@ + decimal(n as nat));
}

/// The run of a rank from file `f` on, `gap` empty squares being pending.
pub open spec fn rank_text(board: Seq<Piece>, r: int, f: int, gap: int) -> Seq<char>
    decreases 8 - f,
{
    let pending: Seq<char> = if gap > 0 {
        seq![digit_char(gap)]
    } else {
        Seq::empty()
    };
    if f >= 8 {
        pending
    } else if board[r * 8 + f].spec_is_empty() {
        rank_text(board, r, f + 1, gap + 1)
    } else {
        pending + seq![piece_char(board[r * 8 + f])] + rank_text(board, r, f + 1, 0)
    }
}

/// The placement field from rank `r` down to the first rank.
pub open spec fn placement_text(board: Seq<Piece>, r: int) -> Seq<char>
    decreases r + 1,
{
    if r < 0 {
        Seq::empty()
    } else if r == 0 {
        rank_text(board, 0, 0, 0)
    } else {
        rank_text(board, r, 0, 0) + seq!['/'] + placement_text(board, r - 1)
    }
}

pub open spec fn castle_text(rights: u8) -> Seq<char> {
    if rights == 0 {
        seq!['-']
    } else {
        (if rights & CASTLE_WK != 0 {
            seq!['K']
        } else {
            Seq::empty()
        }) + (if rights & CASTLE_WQ != 0 {
            seq!['Q']
        } else {
            Seq::empty()
        }) + (if rights & CASTLE_BK != 0 {
            seq!['k']
        } else {
            Seq::empty()
        }) + (if rights & CASTLE_BQ != 0 {
            seq!['q']
        } else {
            Seq::empty()
        })
    }
}

pub open spec fn ep_text(ep: Square) -> Seq<char> {
    if ep < 64 {
        seq![(97 + ep % 8) as char, (49 + ep / 8) as char]
    } else {
        seq!['-']
    }
}

/// The FEN of a position: placement, side to move, castling rights,
/// en-passant square and the two counters, separated by single spaces.
pub open spec fn fen_text(p: &Position) -> Seq<char> {
    placement_text(p.board@, 7) + seq![' ', if p.side_to_move == Color::White {
        'w'
    } else {
        'b'
    }, ' '] + castle_text(p.castling_rights) + seq![' '] + ep_text(p.ep_square) + seq![' '] + decimal(
        p.halfmove_clock as nat,
    ) + seq![' '] + decimal(p.fullmove_number as nat)
}

/// Append the run-length text of rank `r`.
fn push_rank(out: &mut Vec<char>, board: &[Piece; 64], r: i32)
    requires
        0 <= r < 8,
    ensures
        final(out)@ == old(out)@ + rank_text(board@, r as int, 0, 0),
{
    let mut gap: u8 = 0;
    let mut f: i32 = 0;
    while f < 8
        invariant
            0 <= r < 8,
            0 <= f <= 8,
            gap <= f,
            old(out)@ + rank_text(board@, r as int, 0, 0) == out@ + rank_text(board@, r as int, f as int, gap as int),
        decreases 8 - f,
    {
        let p = board[make_square(r, f) as usize];
        let ghost before = out@;
        let ghost g0 = gap;
        if p.is_empty() {
            gap += 1;
        } else {
            if gap > 0 {
                out.push((48u8 + gap) as char);
                gap = 0;
            }
            out.push(piece_to_char(p));
        }
        assert(before + rank_text(board@, r as int, f as int, g0 as int) =~= out@ + rank_text(board@, r as int, f + 1, gap as int));
        f += 1;
    }
    if gap > 0 {
        out.push((48u8 + gap) as char);
    }
    assert(old(out)@ + rank_text(board@, r as int, 0, 0) =~= out@);
}

/// `String`'s `FromIterator<&char>`: a string of the characters in order.
#[verifier::external_body]
pub(crate) fn string_from_chars(v: &Vec<char>) -> (s: String)
    ensures
        s@ == v@,
{
    v.iter().collect()
}

/// Append the placement field, rank 8 first.
fn push_placement(out: &mut Vec<char>, board: &[Piece; 64])
    ensures
        final(out)@ == old(out)@ + placement_text(board@, 7),
{
    let mut r: i32 = 7;
    while r >= 0
        invariant
            -1 <= r <= 7,
            old(out)@ + placement_text(board@, 7) == out@ + (if r >= 0 {
                placement_text(board@, r as int)
            } else {
                Seq::empty()
            }),
        decreases r + 1,
    {
        let ghost before = out@;
        push_rank(out, board, r);
        if r > 0 {
            out.push('/');
        }
        assert(before + placement_text(board@, r as int) =~= out@ + (if r - 1 >= 0 {
            placement_text(board@, r - 1)
        } else {
            Seq::empty()
        }));
        r -= 1;
    }
    assert(old(out)@ + placement_text(board@, 7) =~= out@);
}

fn push_castling(out: &mut Vec<char>, rights: u8)
    ensures
        final(out)@ == old(out)@ + castle_text(rights),
{
    if rights == 0 {
        out.push('-');
    } else {
        if rights & CASTLE_WK != 0 {
            out.push('K');
        }
        if rights & CASTLE_WQ != 0 {
            out.push('Q');
        }
        if rights & CASTLE_BK != 0 {
            out.push('k');
        }
        if rights & CASTLE_BQ != 0 {
            out.push('q');
        }
    }
    assert(out@ =~= old(out)@ + castle_text(rights));
}

fn push_ep(out: &mut Vec<char>, ep: Square)
    ensures
        final(out)@ == old(out)@ + ep_text(ep),
{
    if ep < 64 {
        out.push((97u8 + ep % 8) as char);
        out.push((49u8 + ep / 8) as char);
    } else {
        out.push('-');
    }
    assert(out@ =~= old(out)@ + ep_text(ep));
}

impl Position {
    /// The FEN of the position.
    pub fn to_fen(&self) -> (fen: String)
        ensures
            fen@ == fen_text(self),
    {
        let mut out: Vec<char> = Vec::new();
        push_placement(&mut out, &self.board);
        out.push(' ');
        out.push(
            if self.side_to_move == Color::White {
                'w'
            } else {
                'b'
            },
        );
        out.push(' ');
        push_castling(&mut out, self.castling_rights);
        out.push(' ');
        push_ep(&mut out, self.ep_square);
        out.push(' ');
        push_decimal(&mut out, self.halfmove_clock);
        out.push(' ');
        push_decimal(&mut out, self.fullmove_number);
        assert(out@ =~= fen_text(self));
        string_from_chars(&out)
    }
}

} // verus!
verus! {

/// The piece on the back rank's file `f` in the starting position.
pub open spec fn back_rank_type(f: int) -> PieceType {
    if f == 0 || f == 7 {
        PieceType::Rook
    } else if f == 1 || f == 6 {
        PieceType::Knight
    } else if f == 2 || f == 5 {
        PieceType::Bishop
    } else if f == 3 {
        PieceType::Queen
    } else {
        PieceType::King
    }
}

/// The piece on `sq` in the starting position.
pub open spec fn start_piece(sq: int) -> Piece {
    let r = sq / 8;
    let f = sq % 8;
    if r == 0 {
        Piece { piece_type: back_rank_type(f), color: Color::White }
    } else if r == 1 {
        Piece { piece_type: PieceType::Pawn, color: Color::White }
    } else if r == 6 {
        Piece { piece_type: PieceType::Pawn, color: Color::Black }
    } else if r == 7 {
        Piece { piece_type: back_rank_type(f), color: Color::Black }
    } else {
        Piece::empty()
    }
}

fn start_piece_at(sq: usize) -> (p: Piece)
    requires
        sq < 64,
    ensures
        p == start_piece(sq as int),
{
    let r = sq / 8;
    let f = sq % 8;
    let back = if f == 0 || f == 7 {
        PieceType::Rook
    } else if f == 1 || f == 6 {
        PieceType::Knight
    } else if f == 2 || f == 5 {
        PieceType::Bishop
    } else if f == 3 {
        PieceType::Queen
    } else {
        PieceType::King
    };
    if r == 0 {
        Piece { piece_type: back, color: Color::White }
    } else if r == 1 {
        Piece { piece_type: PieceType::Pawn, color: Color::White }
    } else if r == 6 {
        Piece { piece_type: PieceType::Pawn, color: Color::Black }
    } else if r == 7 {
        Piece { piece_type: back, color: Color::Black }
    } else {
        Piece { piece_type: PieceType::Empty, color: Color::White }
    }
}

/// The standard starting position, the one the FEN
/// `rnbqkbnr/pppppppp/8/8/8/8/PPPPPPPP/RNBQKBNR w KQkq - 0 1` describes.
pub fn start_position() -> (p: Position)
    ensures
        forall|sq: int| 0 <= sq < 64 ==> #[trigger] p.board@[sq] == start_piece(sq),
        p.side_to_move == Color::White,
        p.castling_rights == 0x0F,
        p.ep_square == 64,
        p.halfmove_clock == 0,
        p.fullmove_number == 1,
        p.king_sq@ == seq![4u8, 60u8],
        p.zobrist == p.spec_hash(),
        p.undo_stack@.len() == 0,
{
    let mut pos = Position::default();
    let mut sq: usize = 0;
    while sq < 64
        invariant
            sq <= 64,
            pos.side_to_move == Color::White,
            pos.castling_rights == 0x0F,
            pos.ep_square == 64,
            pos.halfmove_clock == 0,
            pos.fullmove_number == 1,
            pos.king_sq@ == seq![4u8, 60u8],
            pos.undo_stack@.len() == 0,
            forall|i: int| 0 <= i < sq ==> #[trigger] pos.board@[i] == start_piece(i),
        decreases 64 - sq,
    {
        pos.board[sq] = start_piece_at(sq);
        sq += 1;
    }
    pos.compute_zobrist();
    pos
}

} // verus!
