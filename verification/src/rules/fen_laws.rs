//! What reading gives back of writing: the FEN a position prints reads back
//! as the same position.
use vstd::prelude::*;
use super::fen::{
    castle_bits, castle_flag, castle_text, cursor_after, cursor_step, decimal, decimal_value, digit_char,
    digit_value, empty_board, ep_text, fen_counter, fen_side, fen_text, field, is_skip_digit, piece_char,
    place_step, placed_color, placement_after, placement_text, rank_text, reads_fen, spec_char_to_piece_type,
    spec_ep_square, spec_is_digit, spec_is_white, spec_parse_u16, split_words, unsigned_digits, words,
};
use super::position::Position;
use super::types::{Color, Piece, PieceType, Square, spec_make_square};

verus! {

/// No character of `s` separates words.
pub open spec fn no_white(s: Seq<char>) -> bool {
    forall|i: int| 0 <= i < s.len() ==> !spec_is_white(#[trigger] s[i])
}

/// Splitting from position `x.len() + j` of `x + y` is splitting `y` from `j`.
proof fn lemma_split_shift(x: Seq<char>, y: Seq<char>, j: nat, cur: Seq<char>)
    requires
        j <= y.len(),
    ensures
        split_words(x + y, x.len() + j, cur) == split_words(y, j, cur),
    decreases y.len() - j,
{
    if j < y.len() {
        assert((x + y)[(x.len() + j) as int] == y[j as int]);
        if spec_is_white(y[j as int]) {
            lemma_split_shift(x, y, j + 1, Seq::empty());
        } else {
            lemma_split_shift(x, y, j + 1, cur.push(y[j as int]));
        }
    }
}

/// A run of word characters joins the word being read.
proof fn lemma_split_run(a: Seq<char>, b: Seq<char>, i: nat, cur: Seq<char>)
    requires
        i <= a.len(),
        no_white(a),
    ensures
        split_words(a + b, i, cur) == split_words(a + b, a.len(), cur + a.subrange(i as int, a.len() as int)),
    decreases a.len() - i,
{
    if i < a.len() {
        assert((a + b)[i as int] == a[i as int]);
        lemma_split_run(a, b, i + 1, cur.push(a[i as int]));
        assert(cur.push(a[i as int]) + a.subrange((i + 1) as int, a.len() as int) =~= cur + a.subrange(i as int, a.len() as int));
    } else {
        assert(a.subrange(i as int, a.len() as int) =~= Seq::<char>::empty());
        assert(cur + Seq::<char>::empty() =~= cur);
    }
}

/// A word followed by a space comes off the front of the text.
pub proof fn lemma_words_cons(a: Seq<char>, rest: Seq<char>)
    requires
        a.len() > 0,
        no_white(a),
    ensures
        words(a + seq![' '] + rest) == seq![a] + words(rest),
{
    let s = a + (seq![' '] + rest);
    assert(a + seq![' '] + rest =~= s);
    lemma_split_run(a, seq![' '] + rest, 0, Seq::empty());
    assert(Seq::<char>::empty() + a.subrange(0, a.len() as int) =~= a);
    assert(s[a.len() as int] == ' ');
    assert(spec_is_white(' '));
    lemma_split_shift(a + seq![' '], rest, 0, Seq::empty());
    assert(a + seq![' '] + rest =~= s);
    assert((a + seq![' ']).len() == a.len() + 1);
}

/// A last word is the only word.
pub proof fn lemma_words_single(a: Seq<char>)
    requires
        a.len() > 0,
        no_white(a),
    ensures
        words(a) == seq![a],
{
    lemma_split_run(a, Seq::empty(), 0, Seq::empty());
    assert(a + Seq::<char>::empty() =~= a);
    assert(Seq::<char>::empty() + a.subrange(0, a.len() as int) =~= a);
}

/// The decimal text of `n`: digits only, at least one, of value `n`.
pub proof fn lemma_decimal(n: nat)
    ensures
        decimal(n).len() > 0,
        forall|i: int| 0 <= i < decimal(n).len() ==> spec_is_digit(#[trigger] decimal(n)[i]),
        decimal(n)[0] != '+',
        decimal_value(decimal(n), decimal(n).len()) == n,
    decreases n,
{
    if n >= 10 {
        lemma_decimal(n / 10);
        let d = decimal(n / 10);
        let s = d.push(digit_char((n % 10) as int));
        assert(decimal(n) == s);
        lemma_decimal_value_prefix(s, d, d.len());
        assert(digit_value(digit_char((n % 10) as int)) == n % 10);
        assert(s[d.len() as int] == digit_char((n % 10) as int));
        assert(decimal_value(s, s.len()) == decimal_value(s, d.len()) * 10 + digit_value(s[d.len() as int]));
        assert(decimal_value(s, s.len()) == (n / 10) * 10 + n % 10);
        assert(s[0] == d[0]);
    } else {
        let s = seq![digit_char(n as int)];
        assert(decimal(n) == s);
        assert(digit_value(digit_char(n as int)) == n);
        assert(decimal_value(s, 0) == 0);
        assert(decimal_value(s, 1) == digit_value(s[0]));
    }
}

proof fn lemma_decimal_value_prefix(s: Seq<char>, d: Seq<char>, k: nat)
    requires
        k <= d.len(),
        d.len() <= s.len(),
        forall|i: int| 0 <= i < d.len() ==> s[i] == d[i],
    ensures
        decimal_value(s, k) == decimal_value(d, k),
    decreases k,
{
    if k > 0 {
        lemma_decimal_value_prefix(s, d, (k - 1) as nat);
    }
}

/// Reading the decimal text of a 16-bit number gives the number.
pub proof fn lemma_parse_decimal(n: u16)
    ensures
        spec_parse_u16(decimal(n as nat)) == Some(n),
        no_white(decimal(n as nat)),
        decimal(n as nat).len() > 0,
{
    lemma_decimal(n as nat);
    let s = decimal(n as nat);
    assert(unsigned_digits(s) == s);
    assert forall|i: int| 0 <= i < s.len() implies !spec_is_white(#[trigger] s[i]) by {
        assert(spec_is_digit(s[i]));
    }
}

proof fn lemma_castle_bits_push(s: Seq<char>, c: char)
    ensures
        castle_bits(s.push(c), s.len() + 1) == castle_bits(s, s.len()) | castle_flag(c),
{
    lemma_castle_bits_prefix(s.push(c), s, s.len());
}

proof fn lemma_castle_bits_prefix(s: Seq<char>, t: Seq<char>, k: nat)
    requires
        k <= t.len(),
        t.len() <= s.len(),
        forall|i: int| 0 <= i < t.len() ==> s[i] == t[i],
    ensures
        castle_bits(s, k) == castle_bits(t, k),
    decreases k,
{
    if k > 0 {
        lemma_castle_bits_prefix(s, t, (k - 1) as nat);
    }
}

/// Reading the castling field a position prints gives its rights back.
pub proof fn lemma_castle_text(r: u8)
    requires
        r < 16,
    ensures
        castle_bits(castle_text(r), castle_text(r).len()) == r,
        castle_text(r).len() > 0,
        no_white(castle_text(r)),
{
    let t = castle_text(r);
    if r == 0 {
        assert(t =~= seq!['-']);
        lemma_castle_bits_push(Seq::empty(), '-');
        assert(Seq::<char>::empty().push('-') =~= seq!['-']);
        assert((0u8 | 0u8) == 0u8) by (bit_vector);
    } else {
        let b1 = r & 1 != 0;
        let b2 = r & 2 != 0;
        let b4 = r & 4 != 0;
        let b8 = r & 8 != 0;
        let s0 = Seq::<char>::empty();
        let s1 = if b1 {
            s0.push('K')
        } else {
            s0
        };
        let s2 = if b2 {
            s1.push('Q')
        } else {
            s1
        };
        let s3 = if b4 {
            s2.push('k')
        } else {
            s2
        };
        let s4 = if b8 {
            s3.push('q')
        } else {
            s3
        };
        assert(t =~= s4);
        let x0: u8 = 0;
        let x1: u8 = if b1 {
            x0 | 1
        } else {
            x0
        };
        let x2: u8 = if b2 {
            x1 | 2
        } else {
            x1
        };
        let x3: u8 = if b4 {
            x2 | 4
        } else {
            x2
        };
        let x4: u8 = if b8 {
            x3 | 8
        } else {
            x3
        };
        if b1 {
            lemma_castle_bits_push(s0, 'K');
        }
        assert(castle_bits(s1, s1.len()) == x1);
        if b2 {
            lemma_castle_bits_push(s1, 'Q');
        }
        assert(castle_bits(s2, s2.len()) == x2);
        if b4 {
            lemma_castle_bits_push(s2, 'k');
        }
        assert(castle_bits(s3, s3.len()) == x3);
        if b8 {
            lemma_castle_bits_push(s3, 'q');
        }
        assert(castle_bits(s4, s4.len()) == x4);
        assert(x4 == r) by (bit_vector)
            requires
                r < 16,
                r != 0,
                b1 == (r & 1 != 0),
                b2 == (r & 2 != 0),
                b4 == (r & 4 != 0),
                b8 == (r & 8 != 0),
                x0 == 0,
                x1 == if b1 {
                    x0 | 1
                } else {
                    x0
                },
                x2 == if b2 {
                    x1 | 2
                } else {
                    x1
                },
                x3 == if b4 {
                    x2 | 4
                } else {
                    x2
                },
                x4 == if b8 {
                    x3 | 8
                } else {
                    x3
                },
        ;
        assert(b1 || b2 || b4 || b8) by (bit_vector)
            requires
                r < 16,
                r != 0,
                b1 == (r & 1 != 0),
                b2 == (r & 2 != 0),
                b4 == (r & 4 != 0),
                b8 == (r & 8 != 0),
        ;
    }
}

/// Reading the en-passant field a position prints gives its square back.
pub proof fn lemma_ep_text(ep: Square)
    requires
        ep <= 64,
    ensures
        spec_ep_square(ep_text(ep)) == ep,
        ep_text(ep).len() > 0,
        no_white(ep_text(ep)),
{
    let t = ep_text(ep);
    if ep < 64 {
        assert(t[0] as u32 == 97 + ep % 8);
        assert(t[1] as u32 == 49 + ep / 8);
    }
}

/// The reader's state: its (rank, file) cursor, the board so far and the
/// king squares so far.
pub type ReadState = ((int, int), (Seq<Piece>, Seq<Square>));

pub open spec fn read_step(st: ReadState, c: char) -> ReadState {
    (cursor_step(st.0, c), place_step(st.1, st.0, c))
}

/// The reader's state after the first `n` characters of `s`, from `st`.
pub open spec fn read(st: ReadState, s: Seq<char>, n: nat) -> ReadState
    decreases n,
{
    if n == 0 || n > s.len() {
        st
    } else {
        read_step(read(st, s, (n - 1) as nat), s[n - 1])
    }
}

proof fn lemma_read_from_start(s: Seq<char>, n: nat, kings: Seq<Square>)
    requires
        n <= s.len(),
    ensures
        read(((7, 0), (empty_board(), kings)), s, n) == (cursor_after(s, n), placement_after(s, n, kings)),
    decreases n,
{
    if n > 0 {
        lemma_read_from_start(s, (n - 1) as nat, kings);
    }
}

proof fn lemma_read_prefix(st: ReadState, a: Seq<char>, b: Seq<char>, k: nat)
    requires
        k <= a.len(),
    ensures
        read(st, a + b, k) == read(st, a, k),
    decreases k,
{
    if k > 0 {
        lemma_read_prefix(st, a, b, (k - 1) as nat);
        assert((a + b)[k - 1] == a[k - 1]);
    }
}

/// Reading `a + b` is reading `a`, then `b` from where `a` left off.
proof fn lemma_read_append(st: ReadState, a: Seq<char>, b: Seq<char>, n: nat)
    requires
        n <= b.len(),
    ensures
        read(st, a + b, a.len() + n) == read(read(st, a, a.len()), b, n),
    decreases n,
{
    if n == 0 {
        lemma_read_prefix(st, a, b, a.len());
    } else {
        lemma_read_append(st, a, b, (n - 1) as nat);
        assert((a + b)[a.len() + n - 1] == b[n - 1]);
    }
}

proof fn lemma_read_all(st: ReadState, a: Seq<char>, b: Seq<char>)
    ensures
        read(st, a + b, (a + b).len()) == read(read(st, a, a.len()), b, b.len()),
{
    lemma_read_append(st, a, b, b.len());
}

/// A board a FEN describes exactly: empty squares hold the empty piece, and
/// each side has one king, on the square the position records.
pub open spec fn plain_board(board: Seq<Piece>, kings: Seq<Square>) -> bool {
    &&& board.len() == 64
    &&& kings.len() == 2
    &&& kings[0] < 64 && kings[1] < 64
    &&& forall|sq: int| 0 <= sq < 64 && (#[trigger] board[sq]).spec_is_empty() ==> board[sq] == Piece::empty()
    &&& board[kings[0] as int] == (Piece { piece_type: PieceType::King, color: Color::White })
    &&& board[kings[1] as int] == (Piece { piece_type: PieceType::King, color: Color::Black })
    &&& forall|sq: int|
        0 <= sq < 64 && (#[trigger] board[sq]).piece_type == PieceType::King ==> sq == kings[board[sq].color.spec_index()]
}

/// Whether square `sq` comes before the cursor (`r`, `f`) in reading order:
/// ranks from the eighth down, files from a.
pub open spec fn before_cursor(sq: int, r: int, f: int) -> bool {
    sq / 8 > r || (sq / 8 == r && sq % 8 < f)
}

/// The state read so far matches the board before the cursor and is still
/// empty after it; a king square before the cursor is known, the others keep
/// their given value.
pub open spec fn read_so_far(board: Seq<Piece>, kings: Seq<Square>, k0: Seq<Square>, placed: (Seq<Piece>, Seq<Square>), r: int, f: int) -> bool {
    &&& placed.0.len() == 64
    &&& placed.1.len() == 2
    &&& forall|sq: int|
        0 <= sq < 64 ==> #[trigger] placed.0[sq] == if before_cursor(sq, r, f) {
            board[sq]
        } else {
            Piece::empty()
        }
    &&& forall|c: int|
        0 <= c < 2 ==> #[trigger] placed.1[c] == if before_cursor(kings[c] as int, r, f) {
            kings[c]
        } else {
            k0[c]
        }
}

proof fn lemma_piece_char_reads_back(p: Piece)
    requires
        !p.spec_is_empty(),
    ensures
        spec_char_to_piece_type(piece_char(p)) == p.piece_type,
        placed_color(piece_char(p)) == p.color,
        piece_char(p) != '/',
        !is_skip_digit(piece_char(p)),
        !spec_is_white(piece_char(p)),
{
}

/// Reading the text of rank `r` from file `f`, with `gap` empty squares
/// pending, fills the rest of the rank.
proof fn lemma_read_rank(board: Seq<Piece>, kings: Seq<Square>, k0: Seq<Square>, r: int, f: int, gap: int, st: ReadState)
    requires
        plain_board(board, kings),
        k0.len() == 2,
        0 <= r < 8,
        0 <= gap <= f <= 8,
        st.0 == (r, f - gap),
        read_so_far(board, kings, k0, st.1, r, f),
    ensures
        read(st, rank_text(board, r, f, gap), rank_text(board, r, f, gap).len()).0 == (r, 8int),
        read_so_far(board, kings, k0, read(st, rank_text(board, r, f, gap), rank_text(board, r, f, gap).len()).1, r, 8),
    decreases 8 - f,
{
    let text = rank_text(board, r, f, gap);
    let pending: Seq<char> = if gap > 0 {
        seq![digit_char(gap)]
    } else {
        Seq::empty()
    };
    let after_pending = read(st, pending, pending.len());
    assert(read(st, pending, 0) == st);
    if gap > 0 {
        let d = digit_char(gap);
        assert(is_skip_digit(d));
        assert(digit_value(d) == gap);
        assert(d != '/');
        assert(pending[0] == d);
        assert(after_pending == read_step(st, d));
    }
    assert(after_pending.0 == (r, f));
    assert(after_pending.1 == st.1);
    if f >= 8 {
        assert(text == pending);
    } else if board[r * 8 + f].spec_is_empty() {
        assert(kings[0] != r * 8 + f && kings[1] != r * 8 + f);
        assert forall|sq: int| 0 <= sq < 64 implies #[trigger] st.1.0[sq] == if before_cursor(sq, r, f + 1) {
            board[sq]
        } else {
            Piece::empty()
        } by {
            if sq == r * 8 + f {
                assert(board[sq] == Piece::empty());
            }
        }
        lemma_read_rank(board, kings, k0, r, f + 1, gap + 1, st);
    } else {
        let sq = r * 8 + f;
        let p = board[sq];
        let pc = piece_char(p);
        let rest = rank_text(board, r, f + 1, 0);
        assert(text == pending + seq![pc] + rest);
        lemma_read_all(st, pending + seq![pc], rest);
        lemma_read_all(st, pending, seq![pc]);
        let mid = read(after_pending, seq![pc], 1);
        lemma_piece_char_reads_back(p);
        assert(read(after_pending, seq![pc], 0) == after_pending);
        assert(seq![pc][0] == pc);
        assert(mid == read_step(after_pending, pc));
        assert(spec_make_square(r, f) == sq);
        assert(mid.0 == (r, f + 1));
        assert forall|c: int| 0 <= c < 2 implies #[trigger] mid.1.1[c] == if before_cursor(kings[c] as int, r, f + 1) {
            kings[c]
        } else {
            k0[c]
        } by {
            if p.piece_type == PieceType::King {
                assert(sq == kings[p.color.spec_index()]);
            }
        }
        assert forall|q: int| 0 <= q < 64 implies #[trigger] mid.1.0[q] == if before_cursor(q, r, f + 1) {
            board[q]
        } else {
            Piece::empty()
        } by {
            if q == sq {
                assert(mid.1.0[q] == Piece { piece_type: p.piece_type, color: p.color });
            }
        }
        lemma_read_rank(board, kings, k0, r, f + 1, 0, mid);
        assert(pending + seq![pc] + rest =~= (pending + seq![pc]) + rest);
    }
}

/// Reading the placement text from rank `r` down fills the board.
proof fn lemma_read_placement(board: Seq<Piece>, kings: Seq<Square>, k0: Seq<Square>, r: int, st: ReadState)
    requires
        plain_board(board, kings),
        k0.len() == 2,
        0 <= r < 8,
        st.0 == (r, 0int),
        read_so_far(board, kings, k0, st.1, r, 0),
    ensures
        read(st, placement_text(board, r), placement_text(board, r).len()).0 == (0int, 8int),
        read_so_far(board, kings, k0, read(st, placement_text(board, r), placement_text(board, r).len()).1, 0, 8),
    decreases r,
{
    lemma_read_rank(board, kings, k0, r, 0, 0, st);
    if r > 0 {
        let rank = rank_text(board, r, 0, 0);
        let rest = placement_text(board, r - 1);
        let after_rank = read(st, rank, rank.len());
        assert(placement_text(board, r) == rank + seq!['/'] + rest);
        lemma_read_all(st, rank + seq!['/'], rest);
        lemma_read_all(st, rank, seq!['/']);
        let slash = read(after_rank, seq!['/'], 1);
        assert(read(after_rank, seq!['/'], 0) == after_rank);
        assert(seq!['/'][0] == '/');
        assert(slash == read_step(after_rank, '/'));
        assert(slash.0 == (r - 1, 0int));
        assert forall|sq: int| 0 <= sq < 64 implies before_cursor(sq, r, 8) == before_cursor(sq, r - 1, 0) by {
        }
        assert forall|c: int| 0 <= c < 2 implies before_cursor(kings[c] as int, r, 8) == before_cursor(
            kings[c] as int,
            r - 1,
            0,
        ) by {
        }
        lemma_read_placement(board, kings, k0, r - 1, slash);
    }
}

proof fn lemma_rank_text_plain(board: Seq<Piece>, r: int, f: int, gap: int)
    requires
        0 <= gap <= f <= 8,
    ensures
        no_white(rank_text(board, r, f, gap)),
        gap > 0 || f < 8 ==> rank_text(board, r, f, gap).len() > 0,
    decreases 8 - f,
{
    let pending: Seq<char> = if gap > 0 {
        seq![digit_char(gap)]
    } else {
        Seq::empty()
    };
    assert(no_white(pending));
    if f < 8 {
        if board[r * 8 + f].spec_is_empty() {
            lemma_rank_text_plain(board, r, f + 1, gap + 1);
        } else {
            lemma_rank_text_plain(board, r, f + 1, 0);
            let t = pending + seq![piece_char(board[r * 8 + f])] + rank_text(board, r, f + 1, 0);
            assert forall|i: int| 0 <= i < t.len() implies !spec_is_white(#[trigger] t[i]) by {
                if i >= pending.len() + 1 {
                    assert(t[i] == rank_text(board, r, f + 1, 0)[i - pending.len() - 1]);
                }
            }
        }
    }
}

proof fn lemma_placement_text_plain(board: Seq<Piece>, r: int)
    requires
        0 <= r < 8,
    ensures
        no_white(placement_text(board, r)),
        placement_text(board, r).len() > 0,
    decreases r,
{
    lemma_rank_text_plain(board, r, 0, 0);
    if r > 0 {
        lemma_placement_text_plain(board, r - 1);
        let a = rank_text(board, r, 0, 0);
        let b = placement_text(board, r - 1);
        let t = a + seq!['/'] + b;
        assert forall|i: int| 0 <= i < t.len() implies !spec_is_white(#[trigger] t[i]) by {
            if i < a.len() {
                assert(t[i] == a[i]);
            } else if i > a.len() {
                assert(t[i] == b[i - a.len() - 1]);
            }
        }
    }
}

/// A position a FEN describes exactly: a plain board whose kings are the
/// recorded ones, castling rights of the four flags, an en-passant square or
/// none (64).
pub open spec fn fen_exact(p: &Position) -> bool {
    &&& plain_board(p.board@, p.king_sq@)
    &&& p.castling_rights < 16
    &&& p.ep_square <= 64
}

/// The FEN a position prints reads back as the same position: board, king
/// squares, side to move, castling rights, en-passant square and counters,
/// whatever king squares the reader held before.
#[verifier::spinoff_prover]
#[verifier::rlimit(100)]
pub proof fn lemma_fen_round_trip(p: &Position, q: &Position, kings: Seq<Square>)
    requires
        fen_exact(p),
        kings.len() == 2,
        reads_fen(q, fen_text(p), kings),
    ensures
        q.board == p.board,
        q.king_sq == p.king_sq,
        q.side_to_move == p.side_to_move,
        q.castling_rights == p.castling_rights,
        q.ep_square == p.ep_square,
        q.halfmove_clock == p.halfmove_clock,
        q.fullmove_number == p.fullmove_number,
        q.zobrist == p.spec_hash(),
{
    let board = p.board@;
    let pl = placement_text(board, 7);
    let side = seq![if p.side_to_move == Color::White {
        'w'
    } else {
        'b'
    }];
    let castle = castle_text(p.castling_rights);
    let ep = ep_text(p.ep_square);
    let half = decimal(p.halfmove_clock as nat);
    let full = decimal(p.fullmove_number as nat);
    let sp = seq![' '];
    lemma_placement_text_plain(board, 7);
    lemma_castle_text(p.castling_rights);
    lemma_ep_text(p.ep_square);
    lemma_parse_decimal(p.halfmove_clock);
    lemma_parse_decimal(p.fullmove_number);
    assert(no_white(side));
    // The text, field by field.
    let t5 = full;
    let t4 = half + sp + t5;
    let t3 = ep + sp + t4;
    let t2 = castle + sp + t3;
    let t1 = side + sp + t2;
    let t0 = pl + sp + t1;
    assert(fen_text(p) =~= t0);
    lemma_words_single(t5);
    lemma_words_cons(half, t5);
    lemma_words_cons(ep, t4);
    lemma_words_cons(castle, t3);
    lemma_words_cons(side, t2);
    lemma_words_cons(pl, t1);
    let w = words(fen_text(p));
    assert(w =~= seq![pl, side, castle, ep, half, full]);
    assert(field(w, 0, Seq::empty()) == pl);
    assert(field(w, 1, seq!['w']) == side);
    assert(field(w, 2, seq!['-']) == castle);
    assert(field(w, 3, seq!['-']) == ep);
    assert(fen_counter(w, 4, 0) == p.halfmove_clock);
    assert(fen_counter(w, 5, 1) == p.fullmove_number);
    // The side to move.
    assert(seq!['w'] != seq!['b']) by {
        assert(seq!['w'][0] != seq!['b'][0]);
    }
    assert(fen_side(w) == p.side_to_move);
    // The placement.
    let st0: ReadState = ((7, 0), (empty_board(), kings));
    assert forall|sq: int| 0 <= sq < 64 implies !before_cursor(sq, 7, 0) by {
    }
    assert(read_so_far(board, p.king_sq@, kings, st0.1, 7, 0));
    lemma_read_placement(board, p.king_sq@, kings, 7, st0);
    lemma_read_from_start(pl, pl.len(), kings);
    let placed = placement_after(pl, pl.len(), kings);
    assert forall|sq: int| 0 <= sq < 64 implies before_cursor(sq, 0, 8) by {
    }
    assert(q.board@ =~= board);
    assert(q.king_sq@ =~= p.king_sq@);
}

} // verus!
